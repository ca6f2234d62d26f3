//! The writer of a snapshot: its setup, the writers of its buckets, its manifest.
use crate::encoding::{
    file_header, header, LiveObject, ObjectRef, MANIFEST_FILE_MAGIC, SHA3_BYTES,
};
use crate::metadata::{
    is_plain_segment, lemma_epoch_dir_plain, manifest_path, manifest_temporary_path, path_in,
    FileCompression, FileMetadata, Manifest, ManifestView,
};
use crate::names::{epoch_dir, epoch_dir_name, NameError};
use crate::object_writer::{
    LiveObjectSetWriterV1, WriterAction, WriterActionView, WriterEvent, WriterView,
};
use vstd::prelude::*;

verus! {

/// What the writer waits for.
#[derive(Debug)]
pub enum SnapshotPhase {
    /// For the remote object store.
    OpenRemoteStore,
    /// For the remote directory of the epoch to be gone.
    DeleteRemoteDir,
    /// For the local object store.
    OpenLocalStore,
    /// For an answer whether the local directory of the epoch is there.
    CheckLocalDir,
    /// For that directory to be created.
    CreateLocalDir,
    /// For that directory to be opened.
    OpenLocalDir,
    /// For the call to write.
    Ready,
    /// For the uploads to be started.
    StartUpload,
    /// For the place of the local directory in the file system.
    LocateStagingDir,
    /// For the next object, or the answer that there is none.
    NextObject,
    /// For the writer of the bucket of `object`, the last of the writers, to be open.
    OpenWriter { object: LiveObject },
    /// For the writer of the bucket of an object that could not be encoded, the last of the
    /// writers, to be open.
    OpenInVain,
    /// For a writer to write an object.
    WriteObject { index: usize },
    /// For a writer to complete its files.
    FinishWriter { index: usize },
    /// For the uploads to be told that no more files come.
    CloseUpload,
    /// For the local directory to be synced behind the objects.
    SyncObjects,
    /// For the manifest file.
    CreateManifest,
    /// For the local directory to be synced behind the new manifest file.
    SyncNewManifest,
    /// For the manifest file to be opened for what follows its header.
    OpenManifest,
    /// For the manifest as bytes.
    SerializeManifest,
    /// For those bytes in the manifest file.
    AppendManifest,
    /// For the digest of the manifest file.
    DigestManifest,
    /// For that digest in the manifest file.
    AppendDigest,
    /// For the manifest file to be cut to its length.
    SealManifest,
    /// For the local directory to be synced behind the manifest.
    SyncManifest,
    /// For the uploads to end.
    JoinUpload,
    /// For the manifest to be copied to the remote store.
    CopyManifest,
    /// For nothing.
    Closed,
}

/// How what the writer asked for came out.
#[derive(Debug, PartialEq, Eq)]
pub enum SnapshotEvent {
    /// It was done.
    Done,
    /// The directory is there, or not.
    Exists(bool),
    /// The next object.
    Object(LiveObject),
    /// The next object, which has this reference, could not be encoded.
    Unencoded(ObjectRef),
    /// There is no further object.
    NoMoreObjects,
    /// The manifest as bytes.
    Serialized(Vec<u8>),
    /// The digest of the manifest file.
    Digest([u8; SHA3_BYTES]),
    /// What a bucket's writer asked for came out like this.
    Writer(WriterEvent),
    /// It could not be done.
    Failed,
}

/// Why there is no snapshot, other than that something that was asked for failed.
#[derive(Debug, PartialEq, Eq)]
pub enum SnapshotError {
    /// The local object store has no directory.
    NoLocalDirectory,
    /// The local directory of the epoch is there already.
    LocalEpochDirExists,
    /// A file in the local directory of the epoch has a name that it should not have.
    BadName(NameError),
    /// A file of this epoch could not be uploaded.
    UploadFailed { epoch: u64 },
}

/// What the writer asks for.
#[derive(Debug, PartialEq, Eq)]
pub enum SnapshotAction {
    OpenRemoteStore,
    /// Delete this directory in the remote store, and what is in it.
    DeleteRemoteDir { path: String },
    OpenLocalStore,
    /// Find out whether this directory is there, under the directory of the local store.
    CheckLocalDir { path: String },
    /// Create this directory under the directory of the local store.
    CreateLocalDir { path: String },
    /// Open this directory under the directory of the local store.
    OpenLocalDir { path: String },
    /// The writer is set up: nothing to do.
    Ready,
    /// Start to upload the files that are sent, so many at a time.
    StartUpload { concurrency: usize },
    /// Find this directory of the local store in the file system.
    LocateStagingDir { path: String },
    /// Get the next live object.
    NextObject,
    /// Do this for the writer of the bucket.
    Writer { bucket_num: u32, action: WriterAction },
    /// Tell the uploads that no more files come.
    CloseUpload,
    /// Sync the local directory of the epoch.
    SyncStagingDir,
    /// Create the file `tmp_path` with the bytes `header` and rename it to `path`.
    CreateManifest { tmp_path: String, path: String, header: Vec<u8> },
    /// Open the file `path` to append to it.
    OpenManifest { path: String },
    /// Serialize the manifest.
    SerializeManifest(Manifest),
    /// Append these bytes to the manifest file and sync it.
    AppendManifest(Vec<u8>),
    /// Compute the digest of the manifest file as it now is.
    DigestManifest { path: String },
    /// Cut the manifest file to its length.
    SealManifest,
    /// Wait for the uploads to end.
    JoinUpload,
    /// Copy this file from the local store to the remote one.
    CopyManifest { path: String },
    /// The snapshot is complete: nothing to do.
    Complete,
    /// There is no snapshot for this reason: give up.
    Fail(SnapshotError),
    /// What was asked for failed: give up.
    GiveUp,
}

/// The view of a [`SnapshotAction`].
#[verifier::ext_equal]
pub enum SnapshotActionView {
    OpenRemoteStore,
    DeleteRemoteDir { path: Seq<char> },
    OpenLocalStore,
    CheckLocalDir { path: Seq<char> },
    CreateLocalDir { path: Seq<char> },
    OpenLocalDir { path: Seq<char> },
    Ready,
    StartUpload { concurrency: usize },
    LocateStagingDir { path: Seq<char> },
    NextObject,
    Writer { bucket_num: u32, action: WriterActionView },
    CloseUpload,
    SyncStagingDir,
    CreateManifest { tmp_path: Seq<char>, path: Seq<char>, header: Seq<u8> },
    OpenManifest { path: Seq<char> },
    SerializeManifest(ManifestView),
    AppendManifest(Seq<u8>),
    DigestManifest { path: Seq<char> },
    SealManifest,
    JoinUpload,
    CopyManifest { path: Seq<char> },
    Complete,
    Fail(SnapshotError),
    GiveUp,
}

impl View for SnapshotAction {
    type V = SnapshotActionView;

    open spec fn view(&self) -> SnapshotActionView {
        match *self {
            SnapshotAction::OpenRemoteStore => SnapshotActionView::OpenRemoteStore,
            SnapshotAction::DeleteRemoteDir { path } => SnapshotActionView::DeleteRemoteDir {
                path: path@,
            },
            SnapshotAction::OpenLocalStore => SnapshotActionView::OpenLocalStore,
            SnapshotAction::CheckLocalDir { path } => SnapshotActionView::CheckLocalDir {
                path: path@,
            },
            SnapshotAction::CreateLocalDir { path } => SnapshotActionView::CreateLocalDir {
                path: path@,
            },
            SnapshotAction::OpenLocalDir { path } => SnapshotActionView::OpenLocalDir {
                path: path@,
            },
            SnapshotAction::Ready => SnapshotActionView::Ready,
            SnapshotAction::StartUpload { concurrency } => SnapshotActionView::StartUpload {
                concurrency,
            },
            SnapshotAction::LocateStagingDir { path } => SnapshotActionView::LocateStagingDir {
                path: path@,
            },
            SnapshotAction::NextObject => SnapshotActionView::NextObject,
            SnapshotAction::Writer { bucket_num, action } => SnapshotActionView::Writer {
                bucket_num,
                action: action@,
            },
            SnapshotAction::CloseUpload => SnapshotActionView::CloseUpload,
            SnapshotAction::SyncStagingDir => SnapshotActionView::SyncStagingDir,
            SnapshotAction::CreateManifest { tmp_path, path, header } => {
                SnapshotActionView::CreateManifest {
                    tmp_path: tmp_path@,
                    path: path@,
                    header: header@,
                }
            },
            SnapshotAction::OpenManifest { path } => SnapshotActionView::OpenManifest {
                path: path@,
            },
            SnapshotAction::SerializeManifest(manifest) => {
                SnapshotActionView::SerializeManifest(manifest@)
            },
            SnapshotAction::AppendManifest(bytes) => SnapshotActionView::AppendManifest(bytes@),
            SnapshotAction::DigestManifest { path } => SnapshotActionView::DigestManifest {
                path: path@,
            },
            SnapshotAction::SealManifest => SnapshotActionView::SealManifest,
            SnapshotAction::JoinUpload => SnapshotActionView::JoinUpload,
            SnapshotAction::CopyManifest { path } => SnapshotActionView::CopyManifest {
                path: path@,
            },
            SnapshotAction::Complete => SnapshotActionView::Complete,
            SnapshotAction::Fail(error) => SnapshotActionView::Fail(error),
            SnapshotAction::GiveUp => SnapshotActionView::GiveUp,
        }
    }
}

/// The view of a [`StateSnapshotWriterV1`].
#[verifier::ext_equal]
pub struct SnapshotView {
    pub epoch: u64,
    /// The local object store has a directory.
    pub has_local_directory: bool,
    pub file_compression: FileCompression,
    /// How many files are uploaded at a time.
    pub concurrency: usize,
    /// The writers of the buckets that have come up, in the order in which they did.
    pub writers: Seq<WriterView>,
    /// The files of the buckets that are complete.
    pub files: Seq<FileMetadata>,
    pub phase: SnapshotPhase,
}

/// The bucket of the object that `reference` names: there is one for all.
pub open spec fn bucket_of(reference: ObjectRef) -> u32 {
    1
}

impl SnapshotView {
    /// A writer that is to be set up.
    pub open spec fn setting_up(
        epoch: u64,
        has_local_directory: bool,
        file_compression: FileCompression,
        concurrency: usize,
    ) -> Self {
        SnapshotView {
            epoch,
            has_local_directory,
            file_compression,
            concurrency,
            writers: Seq::empty(),
            files: Seq::empty(),
            phase: SnapshotPhase::OpenRemoteStore,
        }
    }

    /// The same writer in another phase.
    pub open spec fn at(self, phase: SnapshotPhase) -> Self {
        SnapshotView { phase, ..self }
    }

    pub open spec fn with_writer(self, index: int, writer: WriterView) -> Self {
        SnapshotView { writers: self.writers.update(index, writer), ..self }
    }

    /// The directory of the epoch.
    pub open spec fn dir(self) -> Seq<char> {
        epoch_dir_name(self.epoch)
    }

    /// The manifest of the epoch.
    pub open spec fn manifest(self) -> Seq<char> {
        path_in(self.dir(), "MANIFEST"@)
    }

    pub open spec fn give_up(self) -> (SnapshotView, SnapshotActionView) {
        (self.at(SnapshotPhase::Closed), SnapshotActionView::GiveUp)
    }

    pub open spec fn fail(self, error: SnapshotError) -> (SnapshotView, SnapshotActionView) {
        (self.at(SnapshotPhase::Closed), SnapshotActionView::Fail(error))
    }

    /// There is a writer for the bucket.
    pub open spec fn has_writer(self, bucket_num: u32) -> bool {
        exists|i: int|
            0 <= i < self.writers.len() && #[trigger] self.writers[i].bucket_num == bucket_num
    }

    /// Where the writer for the bucket is.
    pub open spec fn writer_of(self, bucket_num: u32) -> int {
        choose|i: int|
            0 <= i < self.writers.len() && #[trigger] self.writers[i].bucket_num == bucket_num
    }

    /// What is done when writing starts.
    pub open spec fn on_start(self) -> (SnapshotView, SnapshotActionView) {
        (
            self.at(SnapshotPhase::StartUpload),
            SnapshotActionView::StartUpload { concurrency: self.concurrency },
        )
    }

    /// What is done with an object of the bucket `bucket_num`: its writer writes it, after it has
    /// been opened if it is the first object of its bucket.
    pub open spec fn on_object(self, object: LiveObject, bucket_num: u32) -> (
        SnapshotView,
        SnapshotActionView,
    ) {
        if self.has_writer(bucket_num) {
            self.write_with(self.writer_of(bucket_num), object)
        } else {
            (
                SnapshotView {
                    writers: self.writers.push(
                        WriterView::opening(bucket_num, self.file_compression),
                    ),
                    phase: SnapshotPhase::OpenWriter { object },
                    ..self
                },
                SnapshotActionView::Writer { bucket_num, action: WriterActionView::ListDirectory },
            )
        }
    }

    /// What is done with an object of the bucket `bucket_num` that could not be encoded: nothing,
    /// but that the writer of the bucket is opened first if there is none.
    pub open spec fn on_unencoded(self, bucket_num: u32) -> (SnapshotView, SnapshotActionView) {
        if self.has_writer(bucket_num) {
            self.give_up()
        } else {
            (
                SnapshotView {
                    writers: self.writers.push(
                        WriterView::opening(bucket_num, self.file_compression),
                    ),
                    phase: SnapshotPhase::OpenInVain,
                    ..self
                },
                SnapshotActionView::Writer { bucket_num, action: WriterActionView::ListDirectory },
            )
        }
    }

    /// The writer at `index` is given `object`.
    pub open spec fn write_with(self, index: int, object: LiveObject) -> (
        SnapshotView,
        SnapshotActionView,
    ) {
        let (writer, action) = self.writers[index].on_write(object);
        (
            self.with_writer(index, writer).at(
                SnapshotPhase::WriteObject { index: index as usize },
            ),
            SnapshotActionView::Writer { bucket_num: writer.bucket_num, action },
        )
    }

    /// The writers from `index` on complete their files, one after the other.
    pub open spec fn finish_from(self, index: int) -> (SnapshotView, SnapshotActionView) {
        if index < self.writers.len() {
            let (writer, action) = self.writers[index].on_done();
            (
                self.with_writer(index, writer).at(
                    SnapshotPhase::FinishWriter { index: index as usize },
                ),
                SnapshotActionView::Writer { bucket_num: writer.bucket_num, action },
            )
        } else {
            (self.at(SnapshotPhase::CloseUpload), SnapshotActionView::CloseUpload)
        }
    }

    /// The writer that an event is for.
    pub open spec fn current(self) -> int {
        match self.phase {
            SnapshotPhase::OpenWriter { .. } => self.writers.len() - 1,
            SnapshotPhase::OpenInVain => self.writers.len() - 1,
            SnapshotPhase::WriteObject { index } => index as int,
            SnapshotPhase::FinishWriter { index } => index as int,
            _ => -1,
        }
    }

    /// What is done when a bucket's writer gets `event`: the next thing that it asks for, or, when
    /// it is through, the next thing in the snapshot.
    pub open spec fn on_writer_event(self, event: WriterEvent) -> (
        SnapshotView,
        SnapshotActionView,
    ) {
        let index = self.current();
        let (writer, action) = self.writers[index].on_event(event);
        let next = self.with_writer(index, writer);
        match (self.phase, action) {
            (_, WriterActionView::GiveUp) => next.give_up(),
            (_, WriterActionView::BadName(error)) => next.fail(SnapshotError::BadName(error)),
            (SnapshotPhase::OpenWriter { object }, WriterActionView::Opened) => next.write_with(
                index,
                object,
            ),
            (SnapshotPhase::OpenInVain, WriterActionView::Opened) => next.give_up(),
            (SnapshotPhase::WriteObject { .. }, WriterActionView::Written) => (
                next.at(SnapshotPhase::NextObject),
                SnapshotActionView::NextObject,
            ),
            (SnapshotPhase::FinishWriter { .. }, WriterActionView::Finished(files)) => {
                SnapshotView { files: next.files + files, ..next }.finish_from(index + 1)
            },
            (_, action) => (
                next,
                SnapshotActionView::Writer { bucket_num: writer.bucket_num, action },
            ),
        }
    }

    /// What is done on `event`. An event that does not answer what was asked for is a failure.
    pub open spec fn on_event(self, event: SnapshotEvent) -> (SnapshotView, SnapshotActionView) {
        match (self.phase, event) {
            (SnapshotPhase::OpenRemoteStore, SnapshotEvent::Done) => (
                self.at(SnapshotPhase::DeleteRemoteDir),
                SnapshotActionView::DeleteRemoteDir { path: self.dir() },
            ),
            (SnapshotPhase::DeleteRemoteDir, SnapshotEvent::Done) => (
                self.at(SnapshotPhase::OpenLocalStore),
                SnapshotActionView::OpenLocalStore,
            ),
            (SnapshotPhase::OpenLocalStore, SnapshotEvent::Done) => if self.has_local_directory {
                (
                    self.at(SnapshotPhase::CheckLocalDir),
                    SnapshotActionView::CheckLocalDir { path: self.dir() },
                )
            } else {
                self.fail(SnapshotError::NoLocalDirectory)
            },
            (SnapshotPhase::CheckLocalDir, SnapshotEvent::Exists(exists)) => if exists {
                self.fail(SnapshotError::LocalEpochDirExists)
            } else {
                (
                    self.at(SnapshotPhase::CreateLocalDir),
                    SnapshotActionView::CreateLocalDir { path: self.dir() },
                )
            },
            (SnapshotPhase::CreateLocalDir, SnapshotEvent::Done) => (
                self.at(SnapshotPhase::OpenLocalDir),
                SnapshotActionView::OpenLocalDir { path: self.dir() },
            ),
            (SnapshotPhase::OpenLocalDir, SnapshotEvent::Done) => (
                self.at(SnapshotPhase::Ready),
                SnapshotActionView::Ready,
            ),
            (SnapshotPhase::StartUpload, SnapshotEvent::Done) => (
                self.at(SnapshotPhase::LocateStagingDir),
                SnapshotActionView::LocateStagingDir { path: self.dir() },
            ),
            (SnapshotPhase::LocateStagingDir, SnapshotEvent::Done) => (
                self.at(SnapshotPhase::NextObject),
                SnapshotActionView::NextObject,
            ),
            (SnapshotPhase::NextObject, SnapshotEvent::Object(object)) => self.on_object(
                object,
                bucket_of(object.reference),
            ),
            (SnapshotPhase::NextObject, SnapshotEvent::Unencoded(reference)) => self.on_unencoded(
                bucket_of(reference),
            ),
            (SnapshotPhase::NextObject, SnapshotEvent::NoMoreObjects) => self.finish_from(0),
            (SnapshotPhase::OpenWriter { .. }, SnapshotEvent::Writer(event)) => {
                self.on_writer_event(event)
            },
            (SnapshotPhase::OpenInVain, SnapshotEvent::Writer(event)) => {
                self.on_writer_event(event)
            },
            (SnapshotPhase::WriteObject { .. }, SnapshotEvent::Writer(event)) => {
                self.on_writer_event(event)
            },
            (SnapshotPhase::FinishWriter { .. }, SnapshotEvent::Writer(event)) => {
                self.on_writer_event(event)
            },
            (SnapshotPhase::CloseUpload, SnapshotEvent::Done) => (
                self.at(SnapshotPhase::SyncObjects),
                SnapshotActionView::SyncStagingDir,
            ),
            (SnapshotPhase::SyncObjects, SnapshotEvent::Done) => (
                self.at(SnapshotPhase::CreateManifest),
                SnapshotActionView::CreateManifest {
                    tmp_path: path_in(self.dir(), "MANIFEST.tmp"@),
                    path: self.manifest(),
                    header: header(MANIFEST_FILE_MAGIC),
                },
            ),
            (SnapshotPhase::CreateManifest, SnapshotEvent::Done) => (
                self.at(SnapshotPhase::SyncNewManifest),
                SnapshotActionView::SyncStagingDir,
            ),
            (SnapshotPhase::SyncNewManifest, SnapshotEvent::Done) => (
                self.at(SnapshotPhase::OpenManifest),
                SnapshotActionView::OpenManifest { path: self.manifest() },
            ),
            (SnapshotPhase::OpenManifest, SnapshotEvent::Done) => (
                self.at(SnapshotPhase::SerializeManifest),
                SnapshotActionView::SerializeManifest(
                    ManifestView::listing(self.files, self.epoch),
                ),
            ),
            (SnapshotPhase::SerializeManifest, SnapshotEvent::Serialized(bytes)) => (
                self.at(SnapshotPhase::AppendManifest),
                SnapshotActionView::AppendManifest(bytes@),
            ),
            (SnapshotPhase::AppendManifest, SnapshotEvent::Done) => (
                self.at(SnapshotPhase::DigestManifest),
                SnapshotActionView::DigestManifest { path: self.manifest() },
            ),
            (SnapshotPhase::DigestManifest, SnapshotEvent::Digest(digest)) => (
                self.at(SnapshotPhase::AppendDigest),
                SnapshotActionView::AppendManifest(digest@),
            ),
            (SnapshotPhase::AppendDigest, SnapshotEvent::Done) => (
                self.at(SnapshotPhase::SealManifest),
                SnapshotActionView::SealManifest,
            ),
            (SnapshotPhase::SealManifest, SnapshotEvent::Done) => (
                self.at(SnapshotPhase::SyncManifest),
                SnapshotActionView::SyncStagingDir,
            ),
            (SnapshotPhase::SyncManifest, SnapshotEvent::Done) => (
                self.at(SnapshotPhase::JoinUpload),
                SnapshotActionView::JoinUpload,
            ),
            (SnapshotPhase::JoinUpload, SnapshotEvent::Done) => (
                self.at(SnapshotPhase::CopyManifest),
                SnapshotActionView::CopyManifest { path: self.manifest() },
            ),
            (SnapshotPhase::JoinUpload, SnapshotEvent::Failed) => self.fail(
                SnapshotError::UploadFailed { epoch: self.epoch },
            ),
            (SnapshotPhase::CopyManifest, SnapshotEvent::Done) => (
                self.at(SnapshotPhase::Closed),
                SnapshotActionView::Complete,
            ),
            _ => self.give_up(),
        }
    }

    /// The writers other than the one at `index` wait for an object.
    pub open spec fn idle_but(self, index: int) -> bool {
        forall|i: int|
            0 <= i < self.writers.len() && i != index ==> (#[trigger] self.writers[i]).phase is Idle
    }

    /// Files are uploaded at least one at a time. There is one writer for a bucket, it can count,
    /// and it waits for an object unless it is about one or has completed its files.
    pub open spec fn wf(self) -> bool {
        &&& self.concurrency > 0
        &&& self.writers.len() <= usize::MAX
        &&& forall|i: int|
            0 <= i < self.writers.len() ==> (#[trigger] self.writers[i]).countable()
        &&& forall|i: int, j: int|
            0 <= i < j < self.writers.len() ==> (#[trigger] self.writers[i]).bucket_num != (
            #[trigger] self.writers[j]).bucket_num
        &&& match self.phase {
            SnapshotPhase::NextObject => self.idle_but(-1),
            SnapshotPhase::OpenWriter { object } => {
                &&& object.blob.countable()
                &&& self.writers.len() > 0
                &&& self.idle_but(self.writers.len() - 1)
            },
            SnapshotPhase::OpenInVain => {
                &&& self.writers.len() > 0
                &&& self.idle_but(self.writers.len() - 1)
            },
            SnapshotPhase::WriteObject { index } => {
                &&& index < self.writers.len()
                &&& self.idle_but(index as int)
            },
            SnapshotPhase::FinishWriter { index } => {
                &&& index < self.writers.len()
                &&& forall|i: int|
                    index < i < self.writers.len() ==> (#[trigger] self.writers[i]).phase is Idle
            },
            SnapshotPhase::OpenRemoteStore
            | SnapshotPhase::DeleteRemoteDir
            | SnapshotPhase::OpenLocalStore
            | SnapshotPhase::CheckLocalDir
            | SnapshotPhase::CreateLocalDir
            | SnapshotPhase::OpenLocalDir
            | SnapshotPhase::Ready
            | SnapshotPhase::StartUpload
            | SnapshotPhase::LocateStagingDir => self.writers.len() == 0 && self.files.len() == 0,
            _ => true,
        }
    }

    /// `event` can come about: see [`WriterView::admits`].
    pub open spec fn admits(self, event: SnapshotEvent) -> bool {
        match event {
            SnapshotEvent::Object(object) => object.blob.countable(),
            SnapshotEvent::Writer(event) => {
                let index = self.current();
                0 <= index ==> self.writers[index].admits(event)
            },
            _ => true,
        }
    }
}

/// StateSnapshotWriterV1 writes snapshot files to a local staging dir and simultaneously uploads
/// them to a remote object store. It asks for each piece of input and output as a
/// [`SnapshotAction`], and is told how it came out by a [`SnapshotEvent`].
#[derive(Debug)]
pub struct StateSnapshotWriterV1 {
    epoch: u64,
    has_local_directory: bool,
    file_compression: FileCompression,
    concurrency: usize,
    object_writers: Vec<LiveObjectSetWriterV1>,
    files: Vec<FileMetadata>,
    phase: SnapshotPhase,
}

impl View for StateSnapshotWriterV1 {
    type V = SnapshotView;

    closed spec fn view(&self) -> SnapshotView {
        SnapshotView {
            epoch: self.epoch,
            has_local_directory: self.has_local_directory,
            file_compression: self.file_compression,
            concurrency: self.concurrency,
            writers: self.object_writers@.map_values(|w: LiveObjectSetWriterV1| w@),
            files: self.files@,
            phase: self.phase,
        }
    }
}

impl StateSnapshotWriterV1 {
    /// Sets up a writer for `epoch`. The files of the snapshot are written to a directory of the
    /// local object store, if that has one, and are uploaded `concurrency` at a time.
    pub fn new(
        epoch: u64,
        has_local_directory: bool,
        file_compression: FileCompression,
        concurrency: usize,
    ) -> (opened: (Self, SnapshotAction))
        requires
            concurrency > 0,
        ensures
            opened.0@.wf(),
            opened.0@ == SnapshotView::setting_up(
                epoch,
                has_local_directory,
                file_compression,
                concurrency,
            ),
            opened.1@ == SnapshotActionView::OpenRemoteStore,
    {
        let writer = StateSnapshotWriterV1 {
            epoch,
            has_local_directory,
            file_compression,
            concurrency,
            object_writers: vec![],
            files: vec![],
            phase: SnapshotPhase::OpenRemoteStore,
        };
        assert(writer@ =~= SnapshotView::setting_up(
            epoch,
            has_local_directory,
            file_compression,
            concurrency,
        ));
        (writer, SnapshotAction::OpenRemoteStore)
    }

    /// The writer is set up and has not been asked to write.
    pub fn is_ready(&self) -> (ready: bool)
        ensures
            ready == (self@.phase is Ready),
    {
        match self.phase {
            SnapshotPhase::Ready => true,
            _ => false,
        }
    }

    /// Writes the snapshot.
    pub fn write(&mut self) -> (action: SnapshotAction)
        requires
            old(self)@.wf(),
            old(self)@.phase is Ready,
        ensures
            final(self)@.wf(),
            final(self)@ == old(self)@.on_start().0,
            action@ == old(self)@.on_start().1,
    {
        self.phase = SnapshotPhase::StartUpload;
        SnapshotAction::StartUpload { concurrency: self.concurrency }
    }

    /// The bucket of `object`.
    pub fn bucket_func(object: &LiveObject) -> (bucket_num: u32)
        ensures
            bucket_num == bucket_of(object.reference),
    {
        Self::reference_bucket(&object.reference)
    }

    /// The bucket of the object that `reference` names.
    fn reference_bucket(reference: &ObjectRef) -> (bucket_num: u32)
        ensures
            bucket_num == bucket_of(*reference),
    {
        1u32
    }

    /// The directory of the epoch.
    pub fn epoch_dir(&self) -> (dir: String)
        ensures
            dir@ == self@.dir(),
            is_plain_segment(dir@),
    {
        proof {
            lemma_epoch_dir_plain(self.epoch);
        }
        epoch_dir(self.epoch)
    }

    /// Where the writer for the bucket `bucket_num` is.
    fn find_writer(&self, bucket_num: u32) -> (index: Option<usize>)
        requires
            self@.wf(),
        ensures
            match index {
                Some(i) => self@.has_writer(bucket_num) && i == self@.writer_of(bucket_num),
                None => !self@.has_writer(bucket_num),
            },
    {
        let mut i: usize = 0;
        while i < self.object_writers.len()
            invariant
                self@.wf(),
                i <= self@.writers.len(),
                forall|j: int|
                    0 <= j < i ==> (#[trigger] self@.writers[j]).bucket_num != bucket_num,
            decreases self@.writers.len() - i,
        {
            assert(self@.writers[i as int] == self.object_writers@[i as int]@);
            if self.object_writers[i].bucket_num() == bucket_num {
                return Some(i);
            }
            i = i + 1;
        }
        None
    }

    /// Has the writer at `index` write `object`.
    fn write_with(&mut self, index: usize, object: LiveObject) -> (action: SnapshotAction)
        requires
            index < old(self)@.writers.len(),
            old(self)@.at(SnapshotPhase::NextObject).wf(),
            object.blob.countable(),
        ensures
            final(self)@.wf(),
            final(self)@ == old(self)@.write_with(index as int, object).0,
            action@ == old(self)@.write_with(index as int, object).1,
    {
        assert(self@.writers[index as int] == self.object_writers@[index as int]@);
        let bucket_num: u32 = self.object_writers[index].bucket_num();
        let action = self.object_writers[index].write(object);
        self.phase = SnapshotPhase::WriteObject { index };
        assert(self@ =~= old(self)@.write_with(index as int, object).0);
        SnapshotAction::Writer { bucket_num, action }
    }

    /// Has the writer of the bucket `bucket_num` write `object`, and opens it before if this is
    /// the first object of the bucket.
    pub fn write_live_object(&mut self, object: LiveObject, bucket_num: u32) -> (action:
        SnapshotAction)
        requires
            old(self)@.wf(),
            old(self)@.phase is NextObject,
            object.blob.countable(),
        ensures
            final(self)@.wf(),
            final(self)@ == old(self)@.on_object(object, bucket_num).0,
            action@ == old(self)@.on_object(object, bucket_num).1,
    {
        match self.find_writer(bucket_num) {
            Some(index) => self.write_with(index, object),
            None => {
                let action = self.open_writer(bucket_num);
                self.phase = SnapshotPhase::OpenWriter { object };
                assert(self@ =~= old(self)@.on_object(object, bucket_num).0);
                SnapshotAction::Writer { bucket_num, action }
            },
        }
    }

    /// Does without an object of the bucket `bucket_num` that could not be encoded: opens the
    /// writer of the bucket if there is none, and then gives up.
    pub fn refuse_live_object(&mut self, bucket_num: u32) -> (action: SnapshotAction)
        requires
            old(self)@.wf(),
            old(self)@.phase is NextObject,
        ensures
            final(self)@.wf(),
            final(self)@ == old(self)@.on_unencoded(bucket_num).0,
            action@ == old(self)@.on_unencoded(bucket_num).1,
    {
        match self.find_writer(bucket_num) {
            Some(_) => {
                self.phase = SnapshotPhase::Closed;
                SnapshotAction::GiveUp
            },
            None => {
                let action = self.open_writer(bucket_num);
                self.phase = SnapshotPhase::OpenInVain;
                assert(self@ =~= old(self)@.on_unencoded(bucket_num).0);
                SnapshotAction::Writer { bucket_num, action }
            },
        }
    }

    /// Opens a writer for the bucket `bucket_num`.
    fn open_writer(&mut self, bucket_num: u32) -> (action: WriterAction)
        requires
            old(self)@.wf(),
            !old(self)@.has_writer(bucket_num),
        ensures
            final(self)@ == (SnapshotView {
                writers: old(self)@.writers.push(
                    WriterView::opening(bucket_num, old(self)@.file_compression),
                ),
                ..old(self)@
            }),
            final(self)@.writers.len() <= usize::MAX,
            forall|i: int|
                0 <= i < old(self)@.writers.len() ==> (#[trigger] final(self)@.writers[i]) == old(
                    self,
                )@.writers[i] && old(self)@.writers[i].bucket_num != bucket_num,
            action@ == WriterActionView::ListDirectory,
    {
        let (writer, action) = LiveObjectSetWriterV1::new(bucket_num, self.file_compression);
        self.object_writers.push(writer);
        assert(self@.writers =~= old(self)@.writers.push(
            WriterView::opening(bucket_num, old(self)@.file_compression),
        ));
        assert(self@.writers.len() == self.object_writers.len());
        action
    }

    /// Has the writers from `index` on complete their files.
    fn finish_from(&mut self, index: usize) -> (action: SnapshotAction)
        requires
            index <= old(self)@.writers.len(),
            old(self)@.at(SnapshotPhase::Closed).wf(),
            forall|i: int|
                index <= i < old(self)@.writers.len() ==> (#[trigger] old(
                    self,
                )@.writers[i]).phase is Idle,
        ensures
            final(self)@.wf(),
            final(self)@ == old(self)@.finish_from(index as int).0,
            action@ == old(self)@.finish_from(index as int).1,
    {
        if index < self.object_writers.len() {
            assert(self@.writers[index as int] == self.object_writers@[index as int]@);
            let bucket_num: u32 = self.object_writers[index].bucket_num();
            let action = self.object_writers[index].done();
            self.phase = SnapshotPhase::FinishWriter { index };
            assert(self@ =~= old(self)@.finish_from(index as int).0);
            SnapshotAction::Writer { bucket_num, action }
        } else {
            self.phase = SnapshotPhase::CloseUpload;
            SnapshotAction::CloseUpload
        }
    }

    /// Creates the manifest file.
    fn manifest_file(&self) -> (action: SnapshotAction)
        ensures
            action@ == (SnapshotActionView::CreateManifest {
                tmp_path: path_in(self@.dir(), "MANIFEST.tmp"@),
                path: self@.manifest(),
                header: header(MANIFEST_FILE_MAGIC),
            }),
    {
        let dir = self.epoch_dir();
        SnapshotAction::CreateManifest {
            tmp_path: manifest_temporary_path(&dir),
            path: manifest_path(&dir),
            header: file_header(MANIFEST_FILE_MAGIC),
        }
    }

    /// The path of the manifest.
    fn manifest_file_path(&self) -> (path: String)
        ensures
            path@ == self@.manifest(),
    {
        manifest_path(&self.epoch_dir())
    }

    /// Gives the manifest of the snapshot to be serialized.
    fn write_manifest(&self) -> (action: SnapshotAction)
        ensures
            action@ == SnapshotActionView::SerializeManifest(
                ManifestView::listing(self@.files, self@.epoch),
            ),
    {
        let file_metadata = self.files.clone();
        assert(file_metadata@ =~= self.files@);
        SnapshotAction::SerializeManifest(Manifest::new(file_metadata, self.epoch))
    }

    /// Goes on with what the writer at `index` is about, after `event`.
    fn resume_writer(&mut self, phase: SnapshotPhase, index: usize, event: WriterEvent) -> (action:
        SnapshotAction)
        requires
            old(self)@.at(phase).wf(),
            old(self)@.at(phase).current() == index,
            index < old(self)@.writers.len(),
            old(self)@.writers[index as int].admits(event),
        ensures
            final(self)@.wf(),
            final(self)@ == old(self)@.at(phase).on_writer_event(event).0,
            action@ == old(self)@.at(phase).on_writer_event(event).1,
    {
        let ghost before = old(self)@.at(phase);
        assert(self@.writers[index as int] == self.object_writers@[index as int]@);
        let bucket_num: u32 = self.object_writers[index].bucket_num();
        let action = self.object_writers[index].resume(event);
        let ghost writer = before.writers[index as int].on_event(event).0;
        assert(self@.writers =~= before.with_writer(index as int, writer).writers);
        match (phase, action) {
            (_, WriterAction::GiveUp) => {
                self.phase = SnapshotPhase::Closed;
                SnapshotAction::GiveUp
            },
            (_, WriterAction::BadName(error)) => {
                self.phase = SnapshotPhase::Closed;
                SnapshotAction::Fail(SnapshotError::BadName(error))
            },
            (SnapshotPhase::OpenWriter { object }, WriterAction::Opened) => {
                self.write_with(index, object)
            },
            (SnapshotPhase::OpenInVain, WriterAction::Opened) => {
                self.phase = SnapshotPhase::Closed;
                SnapshotAction::GiveUp
            },
            (SnapshotPhase::WriteObject { .. }, WriterAction::Written) => {
                self.phase = SnapshotPhase::NextObject;
                SnapshotAction::NextObject
            },
            (SnapshotPhase::FinishWriter { .. }, WriterAction::Finished(files)) => {
                let mut files = files;
                self.files.append(&mut files);
                self.finish_from(index + 1)
            },
            (phase, action) => {
                self.phase = phase;
                SnapshotAction::Writer { bucket_num, action }
            },
        }
    }

    /// Goes on with what the writer is about, after `event`.
    pub fn resume(&mut self, event: SnapshotEvent) -> (action: SnapshotAction)
        requires
            old(self)@.wf(),
            old(self)@.admits(event),
        ensures
            final(self)@.wf(),
            final(self)@ == old(self)@.on_event(event).0,
            action@ == old(self)@.on_event(event).1,
    {
        let mut phase = SnapshotPhase::Closed;
        core::mem::swap(&mut self.phase, &mut phase);
        match (phase, event) {
            (SnapshotPhase::OpenRemoteStore, SnapshotEvent::Done) => {
                self.phase = SnapshotPhase::DeleteRemoteDir;
                SnapshotAction::DeleteRemoteDir { path: self.epoch_dir() }
            },
            (SnapshotPhase::DeleteRemoteDir, SnapshotEvent::Done) => {
                self.phase = SnapshotPhase::OpenLocalStore;
                SnapshotAction::OpenLocalStore
            },
            (SnapshotPhase::OpenLocalStore, SnapshotEvent::Done) => {
                if self.has_local_directory {
                    self.phase = SnapshotPhase::CheckLocalDir;
                    SnapshotAction::CheckLocalDir { path: self.epoch_dir() }
                } else {
                    SnapshotAction::Fail(SnapshotError::NoLocalDirectory)
                }
            },
            (SnapshotPhase::CheckLocalDir, SnapshotEvent::Exists(exists)) => {
                if exists {
                    SnapshotAction::Fail(SnapshotError::LocalEpochDirExists)
                } else {
                    self.phase = SnapshotPhase::CreateLocalDir;
                    SnapshotAction::CreateLocalDir { path: self.epoch_dir() }
                }
            },
            (SnapshotPhase::CreateLocalDir, SnapshotEvent::Done) => {
                self.phase = SnapshotPhase::OpenLocalDir;
                SnapshotAction::OpenLocalDir { path: self.epoch_dir() }
            },
            (SnapshotPhase::OpenLocalDir, SnapshotEvent::Done) => {
                self.phase = SnapshotPhase::Ready;
                SnapshotAction::Ready
            },
            (SnapshotPhase::StartUpload, SnapshotEvent::Done) => {
                self.phase = SnapshotPhase::LocateStagingDir;
                SnapshotAction::LocateStagingDir { path: self.epoch_dir() }
            },
            (SnapshotPhase::LocateStagingDir, SnapshotEvent::Done) => {
                self.phase = SnapshotPhase::NextObject;
                SnapshotAction::NextObject
            },
            (SnapshotPhase::NextObject, SnapshotEvent::Object(object)) => {
                self.phase = SnapshotPhase::NextObject;
                let bucket_num: u32 = Self::bucket_func(&object);
                self.write_live_object(object, bucket_num)
            },
            (SnapshotPhase::NextObject, SnapshotEvent::Unencoded(reference)) => {
                self.phase = SnapshotPhase::NextObject;
                self.refuse_live_object(Self::reference_bucket(&reference))
            },
            (SnapshotPhase::NextObject, SnapshotEvent::NoMoreObjects) => self.finish_from(0),
            (SnapshotPhase::OpenInVain, SnapshotEvent::Writer(event)) => {
                let index: usize = self.object_writers.len() - 1;
                self.resume_writer(SnapshotPhase::OpenInVain, index, event)
            },
            (SnapshotPhase::OpenWriter { object }, SnapshotEvent::Writer(event)) => {
                let index: usize = self.object_writers.len() - 1;
                self.resume_writer(SnapshotPhase::OpenWriter { object }, index, event)
            },
            (SnapshotPhase::WriteObject { index }, SnapshotEvent::Writer(event)) => {
                self.resume_writer(SnapshotPhase::WriteObject { index }, index, event)
            },
            (SnapshotPhase::FinishWriter { index }, SnapshotEvent::Writer(event)) => {
                self.resume_writer(SnapshotPhase::FinishWriter { index }, index, event)
            },
            (SnapshotPhase::CloseUpload, SnapshotEvent::Done) => {
                self.phase = SnapshotPhase::SyncObjects;
                SnapshotAction::SyncStagingDir
            },
            (SnapshotPhase::SyncObjects, SnapshotEvent::Done) => {
                self.phase = SnapshotPhase::CreateManifest;
                self.manifest_file()
            },
            (SnapshotPhase::CreateManifest, SnapshotEvent::Done) => {
                self.phase = SnapshotPhase::SyncNewManifest;
                SnapshotAction::SyncStagingDir
            },
            (SnapshotPhase::SyncNewManifest, SnapshotEvent::Done) => {
                self.phase = SnapshotPhase::OpenManifest;
                SnapshotAction::OpenManifest { path: self.manifest_file_path() }
            },
            (SnapshotPhase::OpenManifest, SnapshotEvent::Done) => {
                self.phase = SnapshotPhase::SerializeManifest;
                self.write_manifest()
            },
            (SnapshotPhase::SerializeManifest, SnapshotEvent::Serialized(bytes)) => {
                self.phase = SnapshotPhase::AppendManifest;
                SnapshotAction::AppendManifest(bytes)
            },
            (SnapshotPhase::AppendManifest, SnapshotEvent::Done) => {
                self.phase = SnapshotPhase::DigestManifest;
                SnapshotAction::DigestManifest { path: self.manifest_file_path() }
            },
            (SnapshotPhase::DigestManifest, SnapshotEvent::Digest(digest)) => {
                self.phase = SnapshotPhase::AppendDigest;
                let mut bytes: Vec<u8> = Vec::new();
                bytes.extend_from_slice(digest.as_slice());
                assert(bytes@ =~= digest@);
                SnapshotAction::AppendManifest(bytes)
            },
            (SnapshotPhase::AppendDigest, SnapshotEvent::Done) => {
                self.phase = SnapshotPhase::SealManifest;
                SnapshotAction::SealManifest
            },
            (SnapshotPhase::SealManifest, SnapshotEvent::Done) => {
                self.phase = SnapshotPhase::SyncManifest;
                SnapshotAction::SyncStagingDir
            },
            (SnapshotPhase::SyncManifest, SnapshotEvent::Done) => {
                self.phase = SnapshotPhase::JoinUpload;
                SnapshotAction::JoinUpload
            },
            (SnapshotPhase::JoinUpload, SnapshotEvent::Done) => {
                self.phase = SnapshotPhase::CopyManifest;
                SnapshotAction::CopyManifest { path: self.manifest_file_path() }
            },
            (SnapshotPhase::JoinUpload, SnapshotEvent::Failed) => {
                SnapshotAction::Fail(SnapshotError::UploadFailed { epoch: self.epoch })
            },
            (SnapshotPhase::CopyManifest, SnapshotEvent::Done) => SnapshotAction::Complete,
            _ => SnapshotAction::GiveUp,
        }
    }
}

} // verus!
