//! What holds of a snapshot as a whole, over all runs of its writer.
use crate::encoding::{
    header, lemma_be_bytes_len, LiveObject, MAGIC_BYTES, MANIFEST_FILE_MAGIC, OBJECT_FILE_MAGIC,
    REFERENCE_FILE_MAGIC, SHA3_BYTES,
};
use crate::format_laws::frames;
use crate::metadata::{path_in, FileCompression, FileMetadata, FileType, ManifestView};
use crate::name_laws::{law_object_file_name_reads_back, law_other_files_are_no_parts};
use crate::names::{epoch_dir_name, object_file_name, reading, reference_file_name};
use crate::object_writer::{WriterActionView, WriterEvent, WriterPhase, WriterView};
use crate::read_back_laws::{law_header_reads_back, law_manifest_lists_files, read_be};
use crate::snapshot_writer::{
    bucket_of, SnapshotActionView, SnapshotError, SnapshotEvent, SnapshotPhase, SnapshotView,
};
use crate::upload::UploadActionView;
use crate::upload_laws::{law_upload_keeps_file, upload_possible, upload_run, UploadInput};
use crate::writer_laws::{
    is_listed, is_metadata_of, law_step_keeps_consistent, law_step_keeps_digests,
    law_step_keeps_filled, law_step_keeps_numbered, law_step_keeps_rising, law_step_keeps_stored,
    lemma_input_keeps_numbered,
    lemma_input_keeps_rising, objects_of, references_of, WriterInput, WriterRun,
};
use vstd::prelude::*;

verus! {

/// What goes on around the writer of a snapshot.
pub struct World {
    /// How a manifest becomes bytes.
    pub encode: spec_fn(ManifestView) -> Seq<u8>,
    /// How the digest of a file is computed.
    pub digest: spec_fn(Seq<u8>) -> Seq<u8>,
    /// The bytes of a file once it is complete, given its bucket and its place among the files that
    /// the writer of the bucket hands on.
    pub stored: spec_fn(u32, int) -> Seq<u8>,
    /// What is done with the upload of that file.
    pub uploads: spec_fn(u32, int) -> Seq<UploadInput>,
}

impl World {
    /// What there is in a manifest file before the digest.
    pub open spec fn manifest_body(self, files: Seq<FileMetadata>, epoch: u64) -> Seq<u8> {
        header(MANIFEST_FILE_MAGIC) + (self.encode)(ManifestView::listing(files, epoch))
    }

    /// The bytes of a manifest file.
    pub open spec fn manifest_bytes(self, files: Seq<FileMetadata>, epoch: u64) -> Seq<u8> {
        self.manifest_body(files, epoch) + (self.digest)(self.manifest_body(files, epoch))
    }
}

/// How far the uploads are.
pub enum Uploads {
    NotStarted,
    /// Files are taken.
    Open,
    /// No more files come.
    Closed,
    /// The uploads of all files have ended well.
    Joined,
}

/// What is done with the writer of a snapshot: it is told how what it asked for came out, given an
/// object of a bucket, told that an object of a bucket could not be encoded, or told to write.
pub enum SnapshotInput {
    Event(SnapshotEvent),
    Object(LiveObject, u32),
    Unencoded(u32),
    Write,
}

/// The event is a failure.
pub open spec fn is_failure(event: SnapshotEvent) -> bool {
    event is Failed || event == SnapshotEvent::Writer(WriterEvent::Failed)
}

/// The object that `input` gives the writer, and its bucket.
pub open spec fn object_in(input: SnapshotInput) -> Option<(LiveObject, u32)> {
    match input {
        SnapshotInput::Event(SnapshotEvent::Object(object)) => Some(
            (object, bucket_of(object.reference)),
        ),
        SnapshotInput::Object(object, bucket_num) => Some((object, bucket_num)),
        _ => None,
    }
}

/// The objects that `inputs` give a writer, with their buckets.
pub open spec fn objects_in(inputs: Seq<SnapshotInput>) -> Seq<(LiveObject, u32)>
    decreases inputs.len(),
{
    if inputs.len() == 0 {
        Seq::empty()
    } else {
        match object_in(inputs.last()) {
            Some(given) => objects_in(inputs.drop_last()).push(given),
            None => objects_in(inputs.drop_last()),
        }
    }
}

/// Those of the objects `given` that are in the bucket.
pub open spec fn objects_for(given: Seq<(LiveObject, u32)>, bucket_num: u32) -> Seq<LiveObject>
    decreases given.len(),
{
    if given.len() == 0 {
        Seq::empty()
    } else {
        let before = objects_for(given.drop_last(), bucket_num);
        if given.last().1 == bucket_num {
            before.push(given.last().0)
        } else {
            before
        }
    }
}

/// The files of the first `count` buckets, bucket by bucket.
pub open spec fn files_of(buckets: Seq<WriterRun>, count: int) -> Seq<FileMetadata>
    decreases count,
{
    if count <= 0 {
        Seq::empty()
    } else {
        files_of(buckets, count - 1) + buckets[count - 1].writer.files
    }
}

/// The writer of a snapshot at work.
pub struct SnapshotRun {
    pub snapshot: SnapshotView,
    /// What the writer asked for last.
    pub action: SnapshotActionView,
    /// The objects that the writer has been given, with their buckets.
    pub given: Seq<(LiveObject, u32)>,
    /// The writers of the buckets at work, in the order in which the buckets came up.
    pub buckets: Seq<WriterRun>,
    pub uploads: Uploads,
    /// The bytes of the local manifest file.
    pub manifest: Seq<u8>,
    /// The remote directory of the epoch has been deleted.
    pub deleted: bool,
    /// The bytes of the manifest in the remote directory of the epoch, if it is there.
    pub published: Option<Seq<u8>>,
}

impl SnapshotRun {
    /// A writer that is to be set up. The local manifest file may hold anything, and there may be a
    /// manifest in the remote store.
    pub open spec fn is_start(self) -> bool {
        &&& self.snapshot == SnapshotView::setting_up(
            self.snapshot.epoch,
            self.snapshot.has_local_directory,
            self.snapshot.file_compression,
            self.snapshot.concurrency,
        )
        &&& self.action is OpenRemoteStore
        &&& self.given.len() == 0
        &&& self.buckets.len() == 0
        &&& self.uploads is NotStarted
        &&& !self.deleted
    }

    /// The writers of the buckets once an object of `bucket_num` is given: the writer of the
    /// bucket gets it, or is opened for it.
    pub open spec fn buckets_with(self, object: LiveObject, bucket_num: u32) -> Seq<WriterRun> {
        if self.snapshot.has_writer(bucket_num) {
            let index = self.snapshot.writer_of(bucket_num);
            self.buckets.update(index, self.buckets[index].next(WriterInput::Write(object)))
        } else {
            self.buckets.push(WriterRun::start(bucket_num, self.snapshot.file_compression))
        }
    }

    /// The writers of the buckets once the writers from `index` on are to complete their files.
    pub open spec fn buckets_done(buckets: Seq<WriterRun>, index: int) -> Seq<WriterRun> {
        if index < buckets.len() {
            buckets.update(index, buckets[index].next(WriterInput::Done))
        } else {
            buckets
        }
    }

    /// The writers of the buckets after an event for the one that is at work: once it is open it
    /// gets the object that it was opened for, and once its files are complete it is the turn of
    /// the next one.
    pub open spec fn buckets_after(self, event: WriterEvent) -> Seq<WriterRun> {
        let index = self.snapshot.current();
        let next = self.buckets[index].next(WriterInput::Event(event));
        match self.snapshot.phase {
            SnapshotPhase::OpenWriter { object } if next.action is Opened => self.buckets.update(
                index,
                next.next(WriterInput::Write(object)),
            ),
            SnapshotPhase::FinishWriter { .. } if next.action is Finished => Self::buckets_done(
                self.buckets.update(index, next),
                index + 1,
            ),
            _ => self.buckets.update(index, next),
        }
    }

    pub open spec fn uploads_after(self) -> Uploads {
        match self.action {
            SnapshotActionView::StartUpload { .. } => Uploads::Open,
            SnapshotActionView::CloseUpload => Uploads::Closed,
            SnapshotActionView::JoinUpload => Uploads::Joined,
            _ => self.uploads,
        }
    }

    pub open spec fn manifest_after(self) -> Seq<u8> {
        match self.action {
            SnapshotActionView::CreateManifest { header, .. } => header,
            SnapshotActionView::AppendManifest(bytes) => self.manifest + bytes,
            _ => self.manifest,
        }
    }

    pub open spec fn published_after(self) -> Option<Seq<u8>> {
        match self.action {
            SnapshotActionView::DeleteRemoteDir { .. } => None,
            SnapshotActionView::CopyManifest { .. } => Some(self.manifest),
            _ => self.published,
        }
    }

    /// The run once the writer is given an object of the bucket `bucket_num`.
    pub open spec fn given_object(self, object: LiveObject, bucket_num: u32) -> Self {
        let (snapshot, action) = self.snapshot.on_object(object, bucket_num);
        SnapshotRun {
            snapshot,
            action,
            given: self.given.push((object, bucket_num)),
            buckets: self.buckets_with(object, bucket_num),
            ..self
        }
    }

    /// The run once an object of the bucket `bucket_num` could not be encoded.
    pub open spec fn refused_object(self, bucket_num: u32) -> Self {
        let (snapshot, action) = self.snapshot.on_unencoded(bucket_num);
        SnapshotRun {
            snapshot,
            action,
            buckets: if self.snapshot.has_writer(bucket_num) {
                self.buckets
            } else {
                self.buckets.push(WriterRun::start(bucket_num, self.snapshot.file_compression))
            },
            ..self
        }
    }

    /// The run after `input`.
    #[verifier::opaque]
    pub open spec fn next(self, input: SnapshotInput) -> Self {
        match input {
            SnapshotInput::Event(event) => {
                let (snapshot, action) = self.snapshot.on_event(event);
                match event {
                    SnapshotEvent::Object(object) if self.snapshot.phase is NextObject => {
                        self.given_object(object, bucket_of(object.reference))
                    },
                    SnapshotEvent::Object(object) => SnapshotRun {
                        snapshot,
                        action,
                        given: self.given.push((object, bucket_of(object.reference))),
                        ..self
                    },
                    SnapshotEvent::Unencoded(reference) if self.snapshot.phase is NextObject => {
                        self.refused_object(bucket_of(reference))
                    },
                    SnapshotEvent::NoMoreObjects => SnapshotRun {
                        snapshot,
                        action,
                        buckets: Self::buckets_done(self.buckets, 0),
                        ..self
                    },
                    SnapshotEvent::Writer(e) if !(e is Failed) => SnapshotRun {
                        snapshot,
                        action,
                        buckets: self.buckets_after(e),
                        ..self
                    },
                    _ if is_failure(event) => SnapshotRun { snapshot, action, ..self },
                    _ => SnapshotRun {
                        snapshot,
                        action,
                        uploads: self.uploads_after(),
                        manifest: self.manifest_after(),
                        deleted: self.deleted || self.action is DeleteRemoteDir,
                        published: self.published_after(),
                        ..self
                    },
                }
            },
            SnapshotInput::Object(object, bucket_num) => self.given_object(object, bucket_num),
            SnapshotInput::Unencoded(bucket_num) => self.refused_object(bucket_num),
            SnapshotInput::Write => {
                let (snapshot, action) = self.snapshot.on_start();
                SnapshotRun { snapshot, action, ..self }
            },
        }
    }

    /// The upload of the file at place `k` among those that the writer at `i` has handed on.
    pub open spec fn upload_of(self, world: World, i: int, k: int) -> Seq<UploadInput> {
        (world.uploads)(self.buckets[i].writer.bucket_num, k)
    }

    /// The bytes of that file.
    pub open spec fn bytes_of(self, world: World, i: int, k: int) -> Seq<u8> {
        (world.stored)(self.buckets[i].writer.bucket_num, k)
    }

    /// The path of that file.
    pub open spec fn path_of(self, i: int, k: int) -> Seq<char> {
        path_in(self.snapshot.dir(), self.buckets[i].disk.sent[k].name())
    }

    /// The upload of every file that has been handed on has ended well.
    pub open spec fn all_uploaded(self, world: World) -> bool {
        forall|i: int, k: int|
            #![trigger self.buckets[i].disk.sent[k]]
            0 <= i < self.buckets.len() && 0 <= k < self.buckets[i].disk.sent.len() ==> {
                let path = self.path_of(i, k);
                let bytes = self.bytes_of(world, i, k);
                let inputs = self.upload_of(world, i, k);
                &&& upload_possible(path, bytes, inputs)
                &&& upload_run(path, bytes, inputs).action == Some(UploadActionView::Uploaded)
            }
    }

    /// `event` says that what the writer asked for has been carried out.
    pub open spec fn answers(self, event: SnapshotEvent, world: World) -> bool {
        match self.action {
            SnapshotActionView::CheckLocalDir { .. } => event is Exists,
            SnapshotActionView::NextObject => match event {
                SnapshotEvent::Object(object) => self.takes(object, bucket_of(object.reference)),
                SnapshotEvent::Unencoded(reference) => self.has_room(bucket_of(reference)),
                SnapshotEvent::NoMoreObjects => true,
                _ => false,
            },
            SnapshotActionView::Writer { .. } => match event {
                SnapshotEvent::Writer(e) => {
                    &&& 0 <= self.snapshot.current() < self.buckets.len()
                    &&& self.buckets[self.snapshot.current()].admits(WriterInput::Event(e))
                },
                _ => false,
            },
            SnapshotActionView::SerializeManifest(manifest) => match event {
                SnapshotEvent::Serialized(bytes) => bytes@ == (world.encode)(manifest),
                _ => false,
            },
            SnapshotActionView::DigestManifest { .. } => match event {
                SnapshotEvent::Digest(bytes) => bytes@ == (world.digest)(self.manifest),
                _ => false,
            },
            SnapshotActionView::JoinUpload => event is Done && self.all_uploaded(world),
            _ => event is Done,
        }
    }

    /// The object can be counted, and there is a writer for its bucket, or room for one.
    pub open spec fn takes(self, object: LiveObject, bucket_num: u32) -> bool {
        &&& object.blob.countable()
        &&& self.has_room(bucket_num)
    }

    /// There is a writer for the bucket, or room for one.
    pub open spec fn has_room(self, bucket_num: u32) -> bool {
        self.snapshot.has_writer(bucket_num) || self.snapshot.writers.len() < usize::MAX
    }

    /// What the writer asked for has been carried out or has failed; or it asked for an object and
    /// is given one of some bucket; or it is set up and is told to write. A listing of the
    /// directory may lack files that have been uploaded and removed.
    pub open spec fn admits(self, input: SnapshotInput, world: World) -> bool {
        match input {
            SnapshotInput::Event(event) => {
                &&& !(self.action is Ready)
                &&& !(self.snapshot.phase is Closed)
                &&& is_failure(event) || self.answers(event, world)
            },
            SnapshotInput::Object(object, bucket_num) => {
                &&& self.action is NextObject
                &&& !(self.snapshot.phase is Closed)
                &&& self.takes(object, bucket_num)
            },
            SnapshotInput::Unencoded(bucket_num) => {
                &&& self.action is NextObject
                &&& !(self.snapshot.phase is Closed)
                &&& self.has_room(bucket_num)
            },
            SnapshotInput::Write => self.action is Ready,
        }
    }

    /// A listing of the directory that `input` tells of does not give an object file a number that
    /// one has already: see [`WriterRun::is_fresh`].
    pub open spec fn is_fresh(self, input: SnapshotInput) -> bool {
        input matches SnapshotInput::Event(SnapshotEvent::Writer(event)) ==> {
            0 <= self.snapshot.current() < self.buckets.len()
                ==> self.buckets[self.snapshot.current()].is_fresh(event)
        }
    }

    /// A listing of the directory that `input` tells of has the object files that the writer of the
    /// bucket has created, and no others of the bucket: see [`WriterRun::is_exact`].
    pub open spec fn is_exact(self, input: SnapshotInput) -> bool {
        input matches SnapshotInput::Event(SnapshotEvent::Writer(event)) ==> {
            0 <= self.snapshot.current() < self.buckets.len()
                ==> self.buckets[self.snapshot.current()].is_exact(event)
        }
    }

    /// A listing of the directory that `input` tells of has the last object file of the bucket:
    /// see [`WriterRun::shows_last`].
    pub open spec fn shows_last(self, input: SnapshotInput) -> bool {
        input matches SnapshotInput::Event(SnapshotEvent::Writer(event)) ==> {
            0 <= self.snapshot.current() < self.buckets.len()
                ==> self.buckets[self.snapshot.current()].shows_last(event)
        }
    }
}

/// The run of a writer over `inputs`.
pub open spec fn snapshot_run(start: SnapshotRun, inputs: Seq<SnapshotInput>) -> SnapshotRun
    decreases inputs.len(),
{
    if inputs.len() == 0 {
        start
    } else {
        snapshot_run(start, inputs.drop_last()).next(inputs.last())
    }
}

/// In the run over `inputs` everything that was asked for has been carried out or has failed. This
/// says nothing of the numbers that the object files get: see [`snapshot_numbers_afresh`].
pub open spec fn is_possible(
    start: SnapshotRun,
    inputs: Seq<SnapshotInput>,
    world: World,
) -> bool
    decreases inputs.len(),
{
    inputs.len() > 0 ==> {
        &&& is_possible(start, inputs.drop_last(), world)
        &&& snapshot_run(start, inputs.drop_last()).admits(inputs.last(), world)
    }
}

/// In the run over `inputs` no listing of the directory gives an object file a number that one has
/// already. It is so if the last object file of a bucket is still in the directory whenever that is
/// listed for the bucket: see [`law_last_parts_listed_are_enough`]. Where it has been uploaded and
/// removed by then, its number comes up again and the new file replaces it.
pub open spec fn snapshot_numbers_afresh(start: SnapshotRun, inputs: Seq<SnapshotInput>) -> bool
    decreases inputs.len(),
{
    inputs.len() > 0 ==> {
        &&& snapshot_numbers_afresh(start, inputs.drop_last())
        &&& snapshot_run(start, inputs.drop_last()).is_fresh(inputs.last())
    }
}

/// In the run over `inputs` the directory has no object files at first, and none is removed from
/// it: each listing for a bucket has the object files that the writer of the bucket has created,
/// and no others of the bucket.
pub open spec fn snapshot_lists_exactly(start: SnapshotRun, inputs: Seq<SnapshotInput>) -> bool
    decreases inputs.len(),
{
    inputs.len() > 0 ==> {
        &&& snapshot_lists_exactly(start, inputs.drop_last())
        &&& snapshot_run(start, inputs.drop_last()).is_exact(inputs.last())
    }
}

/// In the run over `inputs` the last object file of a bucket is still in the directory whenever
/// that is listed for the bucket.
pub open spec fn snapshot_lists_last(start: SnapshotRun, inputs: Seq<SnapshotInput>) -> bool
    decreases inputs.len(),
{
    inputs.len() > 0 ==> {
        &&& snapshot_lists_last(start, inputs.drop_last())
        &&& snapshot_run(start, inputs.drop_last()).shows_last(inputs.last())
    }
}

/// A writer that is being opened.
pub open spec fn is_opening(writer: WriterView) -> bool {
    writer.phase is Opening || writer.phase is OpeningObject || writer.phase is OpeningReference
}

/// A writer that is about an object.
pub open spec fn is_writing(writer: WriterView) -> bool {
    match writer.phase {
        WriterPhase::CutSeal { .. }
        | WriterPhase::CutSend { .. }
        | WriterPhase::CutDelimit { .. }
        | WriterPhase::CutList { .. }
        | WriterPhase::CutCreate { .. }
        | WriterPhase::AppendObject { .. }
        | WriterPhase::AppendReference { .. } => true,
        _ => false,
    }
}

/// A writer that completes its files.
pub open spec fn is_finishing(writer: WriterView) -> bool {
    match writer.phase {
        WriterPhase::DoneSeal
        | WriterPhase::DoneSend
        | WriterPhase::DoneSealReference
        | WriterPhase::DoneSendReference => true,
        _ => false,
    }
}

impl SnapshotRun {
    /// The objects that have been given for the bucket of the writer at `i`.
    pub open spec fn given_to(self, i: int) -> Seq<LiveObject> {
        objects_for(self.given, self.buckets[i].writer.bucket_num)
    }

    /// The writer of the snapshot has the writers of the buckets, and no others; there is one for
    /// each bucket that an object has been given for.
    pub open spec fn has_buckets(self) -> bool {
        &&& self.snapshot.writers.len() <= usize::MAX
        &&& self.buckets.len() == self.snapshot.writers.len()
        &&& forall|i: int|
            0 <= i < self.buckets.len() ==> {
                &&& (#[trigger] self.buckets[i]).writer == self.snapshot.writers[i]
                &&& self.buckets[i].consistent()
                &&& self.buckets[i].writer.file_compression == self.snapshot.file_compression
            }
        &&& forall|i: int, j: int|
            0 <= i < j < self.buckets.len() ==> (#[trigger] self.buckets[i]).writer.bucket_num != (
            #[trigger] self.buckets[j]).writer.bucket_num
        &&& forall|bucket_num: u32| #[trigger]
            objects_for(self.given, bucket_num).len() > 0 ==> exists|i: int|
                0 <= i < self.buckets.len() && (#[trigger] self.buckets[i]).writer.bucket_num
                    == bucket_num
    }

    /// The writer at `i` waits for an object.
    pub open spec fn waits(self, i: int) -> bool {
        &&& self.buckets[i].writer.phase is Idle
        &&& self.buckets[i].action is Written
        &&& self.buckets[i].given == self.given_to(i)
        &&& self.given_to(i).len() > 0
    }

    /// The writer at `i` has completed its files.
    pub open spec fn has_finished(self, i: int) -> bool {
        &&& self.buckets[i].writer.phase is Closed
        &&& self.buckets[i].action == WriterActionView::Finished(self.buckets[i].writer.files)
        &&& self.buckets[i].given == self.given_to(i)
        &&& self.given_to(i).len() > 0
    }

    /// The writer of the snapshot passes on what the writer at `i` asks for.
    pub open spec fn passes_on(self, i: int) -> bool {
        &&& 0 <= i < self.buckets.len()
        &&& self.action == (SnapshotActionView::Writer {
            bucket_num: self.buckets[i].writer.bucket_num,
            action: self.buckets[i].action,
        })
    }

    /// The files of all buckets are complete, and are those that the snapshot has.
    pub open spec fn files_complete(self) -> bool {
        &&& forall|i: int| 0 <= i < self.buckets.len() ==> #[trigger] self.has_finished(i)
        &&& self.snapshot.files == files_of(self.buckets, self.buckets.len() as int)
    }

    pub open spec fn body(self, world: World) -> Seq<u8> {
        world.manifest_body(self.snapshot.files, self.snapshot.epoch)
    }

    pub open spec fn full(self, world: World) -> Seq<u8> {
        world.manifest_bytes(self.snapshot.files, self.snapshot.epoch)
    }

    /// The digest in the manifest file has the length of a digest.
    pub open spec fn has_digest(self, world: World) -> bool {
        (world.digest)(self.body(world)).len() == SHA3_BYTES
    }

    /// The local manifest file is complete.
    pub open spec fn manifest_complete(self, world: World) -> bool {
        self.manifest == self.full(world) && self.has_digest(world)
    }

    /// What holds in the phase that the writer is in while it is being set up.
    pub open spec fn consistent_setup(self) -> bool {
        &&& self.buckets.len() == 0
        &&& self.snapshot.files.len() == 0
        &&& self.given.len() == 0
        &&& match self.snapshot.phase {
            SnapshotPhase::OpenRemoteStore => self.action is OpenRemoteStore
                && self.uploads is NotStarted,
            SnapshotPhase::DeleteRemoteDir => self.action is DeleteRemoteDir
                && self.uploads is NotStarted,
            SnapshotPhase::OpenLocalStore => self.action is OpenLocalStore
                && self.uploads is NotStarted,
            SnapshotPhase::CheckLocalDir => self.action is CheckLocalDir
                && self.uploads is NotStarted,
            SnapshotPhase::CreateLocalDir => self.action is CreateLocalDir
                && self.uploads is NotStarted,
            SnapshotPhase::OpenLocalDir => self.action is OpenLocalDir
                && self.uploads is NotStarted,
            SnapshotPhase::Ready => self.action is Ready && self.uploads is NotStarted,
            SnapshotPhase::StartUpload => self.action is StartUpload && self.uploads is NotStarted,
            SnapshotPhase::LocateStagingDir => self.action is LocateStagingDir
                && self.uploads is Open,
            _ => false,
        }
    }

    /// What holds in the phase that the writer is in while it writes objects.
    pub open spec fn consistent_objects(self) -> bool {
        let len = self.buckets.len() as int;
        &&& self.uploads is Open
        &&& match self.snapshot.phase {
            SnapshotPhase::NextObject => {
                &&& self.action is NextObject
                &&& self.snapshot.files.len() == 0
                &&& forall|i: int| 0 <= i < len ==> #[trigger] self.waits(i)
            },
            SnapshotPhase::OpenWriter { object } => {
                &&& self.passes_on(len - 1)
                &&& self.snapshot.files.len() == 0
                &&& is_opening(self.buckets[len - 1].writer)
                &&& self.buckets[len - 1].given.push(object) == self.given_to(len - 1)
                &&& forall|i: int| 0 <= i < len - 1 ==> #[trigger] self.waits(i)
            },
            SnapshotPhase::OpenInVain => {
                &&& self.passes_on(len - 1)
                &&& self.snapshot.files.len() == 0
                &&& is_opening(self.buckets[len - 1].writer)
                &&& forall|i: int| 0 <= i < len - 1 ==> #[trigger] self.waits(i)
            },
            SnapshotPhase::WriteObject { index } => {
                &&& self.passes_on(index as int)
                &&& self.snapshot.files.len() == 0
                &&& is_writing(self.buckets[index as int].writer)
                &&& self.buckets[index as int].given == self.given_to(index as int)
                &&& self.given_to(index as int).len() > 0
                &&& forall|i: int| 0 <= i < len && i != index ==> #[trigger] self.waits(i)
            },
            SnapshotPhase::FinishWriter { index } => {
                &&& self.passes_on(index as int)
                &&& self.snapshot.files == files_of(self.buckets, index as int)
                &&& is_finishing(self.buckets[index as int].writer)
                &&& self.buckets[index as int].given == self.given_to(index as int)
                &&& self.given_to(index as int).len() > 0
                &&& forall|i: int| 0 <= i < index ==> #[trigger] self.has_finished(i)
                &&& forall|i: int| index < i < len ==> #[trigger] self.waits(i)
            },
            _ => false,
        }
    }

    /// What holds in the phase that the writer is in while it writes the manifest.
    pub open spec fn consistent_manifest(self, world: World) -> bool {
        &&& self.files_complete()
        &&& self.snapshot.phase is CopyManifest ==> self.all_uploaded(world)
        &&& self.manifest_so_far(world)
    }

    /// What the local manifest file holds in the phase that the writer is in.
    pub open spec fn manifest_so_far(self, world: World) -> bool {
        let start = header(MANIFEST_FILE_MAGIC);
        let body = self.body(world);
        &&& self.uploads is Open <==> self.snapshot.phase is CloseUpload
        &&& self.uploads is Joined <==> self.snapshot.phase is CopyManifest
        &&& match self.snapshot.phase {
            SnapshotPhase::CloseUpload => self.action is CloseUpload,
            SnapshotPhase::SyncObjects => self.action is SyncStagingDir,
            SnapshotPhase::CreateManifest => self.action == (SnapshotActionView::CreateManifest {
                tmp_path: path_in(self.snapshot.dir(), "MANIFEST.tmp"@),
                path: self.snapshot.manifest(),
                header: start,
            }),
            SnapshotPhase::SyncNewManifest => self.action is SyncStagingDir && self.manifest
                == start,
            SnapshotPhase::OpenManifest => self.action is OpenManifest && self.manifest == start,
            SnapshotPhase::SerializeManifest => self.action
                == SnapshotActionView::SerializeManifest(
                ManifestView::listing(self.snapshot.files, self.snapshot.epoch),
            ) && self.manifest == start,
            SnapshotPhase::AppendManifest => {
                &&& self.action matches SnapshotActionView::AppendManifest(bytes)
                &&& self.manifest == start
                &&& start + bytes == body
            },
            SnapshotPhase::DigestManifest => self.action is DigestManifest && self.manifest == body,
            SnapshotPhase::AppendDigest => self.action == SnapshotActionView::AppendManifest(
                (world.digest)(body),
            ) && self.manifest == body && self.has_digest(world),
            SnapshotPhase::SealManifest => self.action is SealManifest && self.manifest_complete(
                world,
            ),
            SnapshotPhase::SyncManifest => self.action is SyncStagingDir && self.manifest_complete(
                world,
            ),
            SnapshotPhase::JoinUpload => self.action is JoinUpload && self.manifest_complete(world),
            SnapshotPhase::CopyManifest => {
                &&& self.action == (SnapshotActionView::CopyManifest {
                    path: self.snapshot.manifest(),
                })
                &&& self.manifest_complete(world)
            },
            _ => false,
        }
    }

    /// What holds once the writer has given up or is through.
    pub open spec fn consistent_closed(self, world: World) -> bool {
        if self.action is Complete {
            &&& self.has_buckets()
            &&& self.files_complete()
            &&& self.uploads is Joined
            &&& self.all_uploaded(world)
            &&& self.manifest_complete(world)
            &&& self.deleted
            &&& self.published == Some(self.manifest)
        } else {
            &&& self.action is Fail || self.action is GiveUp
            &&& self.deleted ==> self.published is None
        }
    }

    /// What holds at every point of a run.
    #[verifier::opaque]
    pub open spec fn consistent(self, world: World) -> bool {
        if self.snapshot.phase is Closed {
            self.consistent_closed(world)
        } else {
            &&& self.deleted <==> !(self.snapshot.phase is OpenRemoteStore)
                && !(self.snapshot.phase is DeleteRemoteDir)
            &&& self.deleted ==> self.published is None
            &&& self.has_buckets()
            &&& {
                ||| self.consistent_setup()
                ||| self.consistent_objects()
                ||| self.consistent_manifest(world)
            }
        }
    }
}

/// One more object is one more for its bucket.
proof fn lemma_objects_for_push(
    given: Seq<(LiveObject, u32)>,
    object: LiveObject,
    bucket_num: u32,
    other: u32,
)
    ensures
        objects_for(given.push((object, bucket_num)), other) == if other == bucket_num {
            objects_for(given, other).push(object)
        } else {
            objects_for(given, other)
        },
{
    assert(given.push((object, bucket_num)).drop_last() =~= given);
}

/// The files of the first buckets depend on those only.
proof fn lemma_files_of_prefix(a: Seq<WriterRun>, b: Seq<WriterRun>, count: int)
    requires
        forall|i: int| 0 <= i < count ==> (#[trigger] a[i]).writer.files == b[i].writer.files,
    ensures
        files_of(a, count) == files_of(b, count),
    decreases count,
{
    if count > 0 {
        lemma_files_of_prefix(a, b, count - 1);
        assert(a[count - 1].writer.files == b[count - 1].writer.files);
    }
}

proof fn lemma_setup_keeps(r: SnapshotRun, event: SnapshotEvent, world: World)
    requires
        r.consistent(world),
        r.consistent_setup(),
        r.admits(SnapshotInput::Event(event), world),
    ensures
        r.next(SnapshotInput::Event(event)).consistent(world),
{
    reveal(SnapshotRun::next);
    reveal(SnapshotRun::consistent);
    let next = r.next(SnapshotInput::Event(event));
    if !(next.snapshot.phase is Closed) {
        assert(next.has_buckets());
        if next.snapshot.phase is NextObject {
            assert(next.consistent_objects());
        } else {
            assert(next.consistent_setup());
        }
    }
}

/// An object is given for a bucket that has a writer.
proof fn lemma_next_object_keeps(
    r: SnapshotRun,
    object: LiveObject,
    bucket_num: u32,
    world: World,
)
    requires
        r.consistent(world),
        r.consistent_objects(),
        r.snapshot.phase is NextObject,
        r.snapshot.has_writer(bucket_num),
    ensures
        r.given_object(object, bucket_num).consistent(world),
{
    reveal(SnapshotRun::consistent);
    let next = r.given_object(object, bucket_num);
    let index = r.snapshot.writer_of(bucket_num);
    assert(0 <= index < r.snapshot.writers.len());
    assert(r.snapshot.writers[index].bucket_num == bucket_num);
    assert(r.buckets[index].writer == r.snapshot.writers[index]);
    assert(r.waits(index));
    law_step_keeps_consistent(r.buckets[index], WriterInput::Write(object));
    assert(next.buckets[index] == r.buckets[index].next(WriterInput::Write(object)));
    assert forall|i: int| 0 <= i < next.buckets.len() implies {
        &&& (#[trigger] next.buckets[i]).writer == next.snapshot.writers[i]
        &&& next.buckets[i].consistent()
        &&& next.buckets[i].writer.file_compression == next.snapshot.file_compression
        &&& next.buckets[i].writer.bucket_num == r.buckets[i].writer.bucket_num
        &&& i != index ==> next.waits(i)
    } by {
        if i != index {
            assert(next.buckets[i] == r.buckets[i]);
            assert(r.waits(i));
            lemma_objects_for_push(
                r.given,
                object,
                bucket_num,
                r.buckets[i].writer.bucket_num,
            );
        }
    }
    lemma_objects_for_push(r.given, object, bucket_num, bucket_num);
    assert forall|other: u32| #[trigger]
        objects_for(next.given, other).len() > 0 implies exists|i: int|
        0 <= i < next.buckets.len() && (#[trigger] next.buckets[i]).writer.bucket_num == other by {
        lemma_objects_for_push(r.given, object, bucket_num, other);
        if other == bucket_num {
            assert(next.buckets[index].writer.bucket_num == other);
        } else {
            let i = choose|i: int|
                0 <= i < r.buckets.len() && (#[trigger] r.buckets[i]).writer.bucket_num == other;
            assert(next.buckets[i].writer.bucket_num == other);
        }
    }
    assert(next.has_buckets());
    assert(next.consistent_objects());
}

/// A writer is opened for a bucket that has none.
proof fn lemma_open_first(r: SnapshotRun, next: SnapshotRun, bucket_num: u32)
    requires
        r.has_buckets(),
        forall|i: int| 0 <= i < r.buckets.len() ==> #[trigger] r.waits(i),
        !r.snapshot.has_writer(bucket_num),
        r.snapshot.writers.len() < usize::MAX,
        next.snapshot.file_compression == r.snapshot.file_compression,
        next.buckets == r.buckets.push(
            WriterRun::start(bucket_num, r.snapshot.file_compression),
        ),
        next.snapshot.writers == r.snapshot.writers.push(
            WriterView::opening(bucket_num, r.snapshot.file_compression),
        ),
        forall|other: u32| #[trigger]
            objects_for(next.given, other) == objects_for(r.given, other) || other == bucket_num,
    ensures
        objects_for(r.given, bucket_num).len() == 0,
        next.has_buckets(),
        forall|i: int| 0 <= i < r.buckets.len() ==> #[trigger] next.waits(i),
{
    reveal(WriterRun::consistent);
    let last = r.buckets.len() as int;
    assert(next.buckets[last] == WriterRun::start(bucket_num, r.snapshot.file_compression));
    assert forall|i: int| 0 <= i < last implies {
        &&& (#[trigger] next.buckets[i]) == r.buckets[i]
        &&& next.buckets[i].writer == next.snapshot.writers[i]
        &&& next.buckets[i].writer.bucket_num != bucket_num
        &&& next.waits(i)
    } by {
        assert(next.buckets[i] == r.buckets[i]);
        assert(r.waits(i));
        assert(r.snapshot.writers[i].bucket_num != bucket_num);
        assert(objects_for(next.given, r.buckets[i].writer.bucket_num) == objects_for(
            r.given,
            r.buckets[i].writer.bucket_num,
        ));
    }
    assert(objects_for(r.given, bucket_num).len() == 0) by {
        if objects_for(r.given, bucket_num).len() > 0 {
            let i = choose|i: int|
                0 <= i < r.buckets.len() && (#[trigger] r.buckets[i]).writer.bucket_num
                    == bucket_num;
            assert(r.snapshot.writers[i].bucket_num == bucket_num);
        }
    }
    assert forall|other: u32| #[trigger]
        objects_for(next.given, other).len() > 0 implies exists|i: int|
        0 <= i < next.buckets.len() && (#[trigger] next.buckets[i]).writer.bucket_num == other by {
        if other == bucket_num {
            assert(next.buckets[last].writer.bucket_num == other);
        } else {
            let i = choose|i: int|
                0 <= i < r.buckets.len() && (#[trigger] r.buckets[i]).writer.bucket_num == other;
            assert(next.buckets[i].writer.bucket_num == other);
        }
    }
    assert forall|i: int| 0 <= i < r.buckets.len() implies #[trigger] next.waits(i) by {
        assert(next.buckets[i] == r.buckets[i]);
    }
}

/// An object is given for a bucket that has no writer.
proof fn lemma_first_object_keeps(
    r: SnapshotRun,
    object: LiveObject,
    bucket_num: u32,
    world: World,
)
    requires
        r.consistent(world),
        r.consistent_objects(),
        r.snapshot.phase is NextObject,
        !r.snapshot.has_writer(bucket_num),
        r.snapshot.writers.len() < usize::MAX,
    ensures
        r.given_object(object, bucket_num).consistent(world),
{
    reveal(SnapshotRun::consistent);
    let next = r.given_object(object, bucket_num);
    let last = r.buckets.len() as int;
    assert forall|other: u32| #[trigger]
        objects_for(next.given, other) == objects_for(r.given, other) || other == bucket_num by {
        lemma_objects_for_push(r.given, object, bucket_num, other);
    }
    lemma_open_first(r, next, bucket_num);
    lemma_objects_for_push(r.given, object, bucket_num, bucket_num);
    assert(next.buckets[last] == WriterRun::start(bucket_num, r.snapshot.file_compression));
    assert(next.buckets[last].given.push(object) =~= next.given_to(last));
    assert(next.consistent_objects());
}

/// An object could not be encoded.
proof fn lemma_refused_keeps(r: SnapshotRun, bucket_num: u32, world: World)
    requires
        r.consistent(world),
        r.consistent_objects(),
        r.snapshot.phase is NextObject,
        r.has_room(bucket_num),
    ensures
        r.refused_object(bucket_num).consistent(world),
{
    reveal(SnapshotRun::consistent);
    let next = r.refused_object(bucket_num);
    if !r.snapshot.has_writer(bucket_num) {
        let last = r.buckets.len() as int;
        lemma_open_first(r, next, bucket_num);
        assert(next.buckets[last] == WriterRun::start(bucket_num, r.snapshot.file_compression));
        assert(next.consistent_objects());
    }
}

/// The writer at `index` has come to be `after`, and its bucket is as it was.
proof fn lemma_buckets_update(
    r: SnapshotRun,
    next: SnapshotRun,
    index: int,
    after: WriterRun,
)
    requires
        r.has_buckets(),
        0 <= index < r.buckets.len(),
        after.consistent(),
        after.writer.bucket_num == r.buckets[index].writer.bucket_num,
        after.writer.file_compression == r.buckets[index].writer.file_compression,
        next.buckets == r.buckets.update(index, after),
        next.snapshot.writers == r.snapshot.writers.update(index, after.writer),
        next.snapshot.file_compression == r.snapshot.file_compression,
        next.given == r.given,
    ensures
        next.has_buckets(),
        forall|i: int|
            0 <= i < r.buckets.len() ==> (#[trigger] next.buckets[i]).writer.bucket_num
                == r.buckets[i].writer.bucket_num,
        forall|i: int|
            0 <= i < r.buckets.len() && i != index && r.waits(i) ==> #[trigger] next.waits(i),
        forall|i: int|
            0 <= i < r.buckets.len() && i != index && r.has_finished(i)
                ==> #[trigger] next.has_finished(i),
{
    assert forall|i: int| 0 <= i < next.buckets.len() implies {
        &&& (#[trigger] next.buckets[i]).writer == next.snapshot.writers[i]
        &&& next.buckets[i].consistent()
        &&& next.buckets[i].writer.file_compression == next.snapshot.file_compression
        &&& next.buckets[i].writer.bucket_num == r.buckets[i].writer.bucket_num
    } by {
        if i != index {
            assert(next.buckets[i] == r.buckets[i]);
        }
    }
    assert forall|other: u32| #[trigger]
        objects_for(next.given, other).len() > 0 implies exists|i: int|
        0 <= i < next.buckets.len() && (#[trigger] next.buckets[i]).writer.bucket_num == other by {
        let i = choose|i: int|
            0 <= i < r.buckets.len() && (#[trigger] r.buckets[i]).writer.bucket_num == other;
        assert(next.buckets[i].writer.bucket_num == other);
    }
}

/// The writers from `index` on are to complete their files, and all before them have.
proof fn lemma_done_keeps(r: SnapshotRun, next: SnapshotRun, index: int, world: World)
    requires
        r.has_buckets(),
        r.deleted,
        r.published is None,
        r.uploads is Open,
        0 <= index <= r.buckets.len(),
        r.snapshot.files == files_of(r.buckets, index),
        forall|i: int| 0 <= i < index ==> #[trigger] r.has_finished(i),
        forall|i: int| index <= i < r.buckets.len() ==> #[trigger] r.waits(i),
        next == (SnapshotRun {
            snapshot: r.snapshot.finish_from(index).0,
            action: r.snapshot.finish_from(index).1,
            buckets: SnapshotRun::buckets_done(r.buckets, index),
            ..r
        }),
    ensures
        next.consistent(world),
{
    reveal(SnapshotRun::consistent);
    if index < r.buckets.len() {
        assert(r.waits(index));
        assert(r.buckets[index].writer == r.snapshot.writers[index]);
        law_step_keeps_consistent(r.buckets[index], WriterInput::Done);
        lemma_buckets_update(r, next, index, r.buckets[index].next(WriterInput::Done));
        lemma_files_of_prefix(r.buckets, next.buckets, index);
        assert forall|i: int| 0 <= i < index implies #[trigger] next.has_finished(i) by {
            assert(r.has_finished(i));
        }
        assert forall|i: int| index < i < next.buckets.len() implies #[trigger] next.waits(i) by {
            assert(r.waits(i));
        }
        assert(next.consistent_objects());
    } else {
        assert forall|i: int| 0 <= i < next.buckets.len() implies #[trigger] next.has_finished(
            i,
        ) by {
            assert(r.has_finished(i));
        }
        assert forall|i: int| 0 <= i < next.buckets.len() implies {
            &&& (#[trigger] next.buckets[i]).writer == next.snapshot.writers[i]
            &&& next.buckets[i].consistent()
            &&& next.buckets[i].writer.file_compression == next.snapshot.file_compression
        } by {
            assert(r.buckets[i].consistent());
        }
        assert(next.has_buckets());
        assert(next.consistent_manifest(world));
    }
}

/// There is no further object.
proof fn lemma_no_more_objects_keeps(r: SnapshotRun, world: World)
    requires
        r.consistent(world),
        r.consistent_objects(),
        r.snapshot.phase is NextObject,
    ensures
        r.next(SnapshotInput::Event(SnapshotEvent::NoMoreObjects)).consistent(world),
{
    reveal(SnapshotRun::next);
    reveal(SnapshotRun::consistent);
    let next = r.next(SnapshotInput::Event(SnapshotEvent::NoMoreObjects));
    assert(r.snapshot.files =~= files_of(r.buckets, 0));
    lemma_done_keeps(r, next, 0, world);
}

/// The writer of a bucket that is being opened is told how what it asked for came out.
proof fn lemma_open_keeps(r: SnapshotRun, event: WriterEvent, world: World)
    requires
        r.consistent(world),
        r.consistent_objects(),
        r.snapshot.phase is OpenWriter,
        !(event is Failed),
        r.admits(SnapshotInput::Event(SnapshotEvent::Writer(event)), world),
    ensures
        r.next(SnapshotInput::Event(SnapshotEvent::Writer(event))).consistent(world),
{
    reveal(SnapshotRun::next);
    reveal(SnapshotRun::consistent);
    let next = r.next(SnapshotInput::Event(SnapshotEvent::Writer(event)));
    let index = r.snapshot.current();
    let bucket = r.buckets[index];
    let after = bucket.next(WriterInput::Event(event));
    assert(bucket.writer == r.snapshot.writers[index]);
    law_step_keeps_consistent(bucket, WriterInput::Event(event));
    lemma_writer_step(bucket.writer, event);
    let object = r.snapshot.phase->OpenWriter_object;
    if after.action is Opened {
        law_step_keeps_consistent(after, WriterInput::Write(object));
        let opened = after.next(WriterInput::Write(object));
        assert(next.snapshot.writers =~= r.snapshot.writers.update(index, opened.writer));
        lemma_buckets_update(r, next, index, opened);
        assert forall|i: int| 0 <= i < next.buckets.len() && i != index implies
            #[trigger] next.waits(i) by {
            assert(r.waits(i));
        }
        assert(next.consistent_objects());
    } else {
        lemma_buckets_update(r, next, index, after);
        if !(next.snapshot.phase is Closed) {
            assert forall|i: int| 0 <= i < next.buckets.len() - 1 implies
                #[trigger] next.waits(i) by {
                assert(r.waits(i));
            }
            assert(next.consistent_objects());
        }
    }
}

/// The writer of a bucket that is being opened for an object that could not be encoded is told how
/// what it asked for came out.
proof fn lemma_vain_keeps(r: SnapshotRun, event: WriterEvent, world: World)
    requires
        r.consistent(world),
        r.consistent_objects(),
        r.snapshot.phase is OpenInVain,
        !(event is Failed),
        r.admits(SnapshotInput::Event(SnapshotEvent::Writer(event)), world),
    ensures
        r.next(SnapshotInput::Event(SnapshotEvent::Writer(event))).consistent(world),
{
    reveal(SnapshotRun::next);
    reveal(SnapshotRun::consistent);
    let next = r.next(SnapshotInput::Event(SnapshotEvent::Writer(event)));
    let index = r.snapshot.current();
    let bucket = r.buckets[index];
    let after = bucket.next(WriterInput::Event(event));
    assert(bucket.writer == r.snapshot.writers[index]);
    law_step_keeps_consistent(bucket, WriterInput::Event(event));
    lemma_writer_step(bucket.writer, event);
    if !(next.snapshot.phase is Closed) {
        lemma_buckets_update(r, next, index, after);
        assert forall|i: int| 0 <= i < next.buckets.len() - 1 implies #[trigger] next.waits(
            i,
        ) by {
            assert(r.waits(i));
        }
        assert(next.consistent_objects());
    }
}

/// The writer of a bucket that is about an object is told how what it asked for came out.
proof fn lemma_write_object_keeps(r: SnapshotRun, event: WriterEvent, world: World)
    requires
        r.consistent(world),
        r.consistent_objects(),
        r.snapshot.phase is WriteObject,
        !(event is Failed),
        r.admits(SnapshotInput::Event(SnapshotEvent::Writer(event)), world),
    ensures
        r.next(SnapshotInput::Event(SnapshotEvent::Writer(event))).consistent(world),
{
    reveal(SnapshotRun::next);
    reveal(SnapshotRun::consistent);
    let next = r.next(SnapshotInput::Event(SnapshotEvent::Writer(event)));
    let index = r.snapshot.current();
    let bucket = r.buckets[index];
    let after = bucket.next(WriterInput::Event(event));
    assert(bucket.writer == r.snapshot.writers[index]);
    law_step_keeps_consistent(bucket, WriterInput::Event(event));
    lemma_writer_step(bucket.writer, event);
    lemma_buckets_update(r, next, index, after);
    if !(next.snapshot.phase is Closed) {
        assert forall|i: int| 0 <= i < next.buckets.len() && i != index implies
            #[trigger] next.waits(i) by {
            assert(r.waits(i));
        }
        if next.snapshot.phase is NextObject {
            assert(next.waits(index));
        }
        assert(next.consistent_objects());
    }
}

/// The writer of a bucket that completes its files is told how what it asked for came out.
proof fn lemma_finish_keeps(r: SnapshotRun, event: WriterEvent, world: World)
    requires
        r.consistent(world),
        r.consistent_objects(),
        r.snapshot.phase is FinishWriter,
        !(event is Failed),
        r.admits(SnapshotInput::Event(SnapshotEvent::Writer(event)), world),
    ensures
        r.next(SnapshotInput::Event(SnapshotEvent::Writer(event))).consistent(world),
{
    reveal(SnapshotRun::next);
    reveal(SnapshotRun::consistent);
    let next = r.next(SnapshotInput::Event(SnapshotEvent::Writer(event)));
    let index = r.snapshot.current();
    let bucket = r.buckets[index];
    let after = bucket.next(WriterInput::Event(event));
    assert(bucket.writer == r.snapshot.writers[index]);
    law_step_keeps_consistent(bucket, WriterInput::Event(event));
    lemma_writer_step(bucket.writer, event);
    if after.action is Finished {
        let files = after.writer.files;
        let middle = SnapshotRun {
            snapshot: SnapshotView {
                files: r.snapshot.files + files,
                ..r.snapshot.with_writer(index, after.writer)
            },
            buckets: r.buckets.update(index, after),
            ..r
        };
        lemma_buckets_update(r, middle, index, after);
        lemma_files_of_prefix(r.buckets, middle.buckets, index);
        assert(middle.buckets[index].writer.files == files);
        assert(middle.snapshot.files == files_of(middle.buckets, index + 1));
        assert forall|i: int| 0 <= i < index + 1 implies #[trigger] middle.has_finished(i) by {
            if i < index {
                assert(r.has_finished(i));
            }
        }
        assert forall|i: int| index + 1 <= i < middle.buckets.len() implies
            #[trigger] middle.waits(i) by {
            assert(r.waits(i));
        }
        lemma_done_keeps(middle, next, index + 1, world);
    } else {
        lemma_buckets_update(r, next, index, after);
        if !(next.snapshot.phase is Closed) {
            lemma_files_of_prefix(r.buckets, next.buckets, index);
            assert forall|i: int| 0 <= i < index implies #[trigger] next.has_finished(i) by {
                assert(r.has_finished(i));
            }
            assert forall|i: int| index < i < next.buckets.len() implies
                #[trigger] next.waits(i) by {
                assert(r.waits(i));
            }
            assert(next.consistent_objects());
        }
    }
}

/// What an event does not change in the writer of a bucket.
proof fn lemma_writer_step(w: WriterView, event: WriterEvent)
    ensures
        w.on_event(event).0.bucket_num == w.bucket_num,
        w.on_event(event).0.file_compression == w.file_compression,
        w.on_event(event).1 matches WriterActionView::Finished(files) ==> files == w.on_event(
            event,
        ).0.files && w.on_event(event).0.phase is Closed,
{
}

/// What a step does while the manifest is written.
proof fn lemma_manifest_step(r: SnapshotRun, event: SnapshotEvent, world: World)
    requires
        r.manifest_so_far(world),
        r.answers(event, world),
        !is_failure(event),
        r.deleted,
        r.published is None,
    ensures
        ({
            let next = r.next(SnapshotInput::Event(event));
            &&& next.buckets == r.buckets
            &&& next.given == r.given
            &&& next.snapshot == r.snapshot.at(next.snapshot.phase)
            &&& next.deleted
            &&& if next.snapshot.phase is Closed {
                &&& r.snapshot.phase is CopyManifest
                &&& next.action is Complete
                &&& next.uploads is Joined
                &&& next.manifest_complete(world)
                &&& next.published == Some(next.manifest)
            } else {
                &&& next.manifest_so_far(world)
                &&& next.published is None
                &&& next.snapshot.phase is CopyManifest ==> r.all_uploaded(world)
            }
        }),
{
    reveal(SnapshotRun::next);
}

/// Another phase changes nothing in the buckets.
proof fn lemma_same_buckets(r: SnapshotRun, next: SnapshotRun, world: World)
    requires
        next.buckets == r.buckets,
        next.given == r.given,
        next.snapshot == r.snapshot.at(next.snapshot.phase),
    ensures
        r.has_buckets() ==> next.has_buckets(),
        r.files_complete() ==> next.files_complete(),
        r.all_uploaded(world) ==> next.all_uploaded(world),
{
    if r.has_buckets() {
        assert forall|i: int| 0 <= i < next.buckets.len() implies {
            &&& (#[trigger] next.buckets[i]).writer == next.snapshot.writers[i]
            &&& next.buckets[i].consistent()
            &&& next.buckets[i].writer.file_compression == next.snapshot.file_compression
        } by {
            assert(r.buckets[i].consistent());
        }
    }
    if r.files_complete() {
        assert forall|i: int| 0 <= i < next.buckets.len() implies #[trigger] next.has_finished(
            i,
        ) by {
            assert(r.has_finished(i));
        }
    }
    if r.all_uploaded(world) {
        assert forall|i: int, k: int|
            #![trigger next.buckets[i].disk.sent[k]]
            0 <= i < next.buckets.len() && 0 <= k < next.buckets[i].disk.sent.len() implies {
            let path = next.path_of(i, k);
            let bytes = next.bytes_of(world, i, k);
            let inputs = next.upload_of(world, i, k);
            &&& upload_possible(path, bytes, inputs)
            &&& upload_run(path, bytes, inputs).action == Some(UploadActionView::Uploaded)
        } by {
            assert(r.buckets[i].disk.sent[k] == next.buckets[i].disk.sent[k]);
            assert(next.path_of(i, k) == r.path_of(i, k));
            assert(next.bytes_of(world, i, k) == r.bytes_of(world, i, k));
            assert(next.upload_of(world, i, k) == r.upload_of(world, i, k));
        }
    }
}

proof fn lemma_manifest_keeps(r: SnapshotRun, event: SnapshotEvent, world: World)
    requires
        r.consistent(world),
        r.consistent_manifest(world),
        r.admits(SnapshotInput::Event(event), world),
        !is_failure(event),
    ensures
        r.next(SnapshotInput::Event(event)).consistent(world),
{
    reveal(SnapshotRun::consistent);
    let next = r.next(SnapshotInput::Event(event));
    lemma_manifest_step(r, event, world);
    lemma_same_buckets(r, next, world);
    if !(next.snapshot.phase is Closed) {
        assert(next.consistent_manifest(world));
    }
}

proof fn lemma_failure_keeps(r: SnapshotRun, event: SnapshotEvent, world: World)
    requires
        r.consistent(world),
        is_failure(event),
        r.admits(SnapshotInput::Event(event), world),
    ensures
        r.next(SnapshotInput::Event(event)).consistent(world),
{
    reveal(SnapshotRun::next);
    reveal(SnapshotRun::consistent);
}

/// One step of a run keeps everything as it should be.
pub proof fn law_snapshot_step_keeps_consistent(
    r: SnapshotRun,
    input: SnapshotInput,
    world: World,
)
    requires
        r.consistent(world),
        r.admits(input, world),
    ensures
        r.next(input).consistent(world),
{
    reveal(SnapshotRun::next);
    lemma_kind(r, world);
    match input {
        SnapshotInput::Event(event) => {
            if is_failure(event) {
                lemma_failure_keeps(r, event, world);
            } else if r.consistent_setup() {
                lemma_setup_keeps(r, event, world);
            } else if r.consistent_objects() {
                if r.snapshot.phase is NextObject {
                    match event {
                        SnapshotEvent::Object(object) => {
                            lemma_object_keeps(r, object, bucket_of(object.reference), world);
                        },
                        SnapshotEvent::Unencoded(reference) => {
                            lemma_refused_keeps(r, bucket_of(reference), world);
                        },
                        _ => {
                            lemma_no_more_objects_keeps(r, world);
                        },
                    }
                } else if r.snapshot.phase is OpenInVain {
                    lemma_vain_keeps(r, event->Writer_0, world);
                } else if r.snapshot.phase is OpenWriter {
                    lemma_open_keeps(r, event->Writer_0, world);
                } else if r.snapshot.phase is WriteObject {
                    lemma_write_object_keeps(r, event->Writer_0, world);
                } else {
                    lemma_finish_keeps(r, event->Writer_0, world);
                }
            } else {
                lemma_manifest_keeps(r, event, world);
            }
        },
        SnapshotInput::Object(object, bucket_num) => {
            lemma_object_keeps(r, object, bucket_num, world);
        },
        SnapshotInput::Unencoded(bucket_num) => {
            lemma_refused_keeps(r, bucket_num, world);
        },
        SnapshotInput::Write => {
            lemma_write_keeps(r, world);
        },
    }
}

proof fn lemma_kind(r: SnapshotRun, world: World)
    requires
        r.consistent(world),
    ensures
        !(r.snapshot.phase is Closed) ==> r.consistent_setup() || r.consistent_objects()
            || r.consistent_manifest(world),
        r.action is NextObject ==> r.consistent_objects() && r.snapshot.phase is NextObject,
{
    reveal(SnapshotRun::consistent);
}

proof fn lemma_write_keeps(r: SnapshotRun, world: World)
    requires
        r.consistent(world),
        r.action is Ready,
    ensures
        r.next(SnapshotInput::Write).consistent(world),
{
    reveal(SnapshotRun::next);
    reveal(SnapshotRun::consistent);
    let next = r.next(SnapshotInput::Write);
    assert(next.has_buckets());
    assert(next.consistent_setup());
}

proof fn lemma_object_keeps(r: SnapshotRun, object: LiveObject, bucket_num: u32, world: World)
    requires
        r.consistent(world),
        r.consistent_objects(),
        r.snapshot.phase is NextObject,
        r.takes(object, bucket_num),
    ensures
        r.given_object(object, bucket_num).consistent(world),
{
    if r.snapshot.has_writer(bucket_num) {
        lemma_next_object_keeps(r, object, bucket_num, world);
    } else {
        lemma_first_object_keeps(r, object, bucket_num, world);
    }
}

/// What a step does not change, and what it does to the objects.
proof fn lemma_step(r: SnapshotRun, input: SnapshotInput)
    ensures
        r.next(input).snapshot.epoch == r.snapshot.epoch,
        r.next(input).snapshot.file_compression == r.snapshot.file_compression,
        r.next(input).given == match object_in(input) {
            Some(given) => r.given.push(given),
            None => r.given,
        },
        r.deleted ==> r.next(input).deleted,
        r.next(input).published == r.published || r.next(input).deleted
            || r.action is CopyManifest,
{
    reveal(SnapshotRun::next);
}

/// What the writer asks for at the end, it asks for in one phase only.
proof fn lemma_last_actions(r: SnapshotRun, input: SnapshotInput)
    ensures
        r.next(input).action is Complete ==> r.next(input).snapshot.phase is Closed,
        r.next(input).action is CopyManifest ==> r.next(input).snapshot.phase is CopyManifest,
        r.next(input).action is SerializeManifest ==> r.next(
            input,
        ).snapshot.phase is SerializeManifest,
{
    reveal(SnapshotRun::next);
}

/// A writer that is to be set up is as it should be.
proof fn lemma_start_consistent(start: SnapshotRun, world: World)
    requires
        start.is_start(),
    ensures
        start.consistent(world),
        start.given == objects_in(Seq::empty()),
{
    reveal(SnapshotRun::consistent);
    assert(start.consistent_setup());
    assert(start.given =~= Seq::empty());
}

/// Everything is as it should be at every point of a run.
pub proof fn law_snapshot_run_consistent(
    start: SnapshotRun,
    inputs: Seq<SnapshotInput>,
    world: World,
)
    requires
        start.is_start(),
        is_possible(start, inputs, world),
    ensures
        ({
            let r = snapshot_run(start, inputs);
            &&& r.consistent(world)
            &&& r.given == objects_in(inputs)
            &&& r.snapshot.epoch == start.snapshot.epoch
            &&& r.snapshot.file_compression == start.snapshot.file_compression
            &&& r.action is Complete ==> r.snapshot.phase is Closed
            &&& r.action is CopyManifest ==> r.snapshot.phase is CopyManifest
            &&& r.action is SerializeManifest ==> r.snapshot.phase is SerializeManifest
            &&& !r.deleted ==> r.published == start.published
        }),
    decreases inputs.len(),
{
    if inputs.len() == 0 {
        lemma_start_consistent(start, world);
        assert(inputs =~= Seq::empty());
    } else {
        let before = snapshot_run(start, inputs.drop_last());
        law_snapshot_run_consistent(start, inputs.drop_last(), world);
        law_snapshot_step_keeps_consistent(before, inputs.last(), world);
        lemma_step(before, inputs.last());
        lemma_manifest_last(before, world);
        lemma_last_actions(before, inputs.last());
    }
}

/// What the writer of a bucket leaves in a snapshot that is complete: each of the objects
/// `objects` has been put in exactly one of its parts, in order; its files are its parts, in
/// order, and then its reference file, each listed with its bucket, its part and its compression,
/// and are those that it has handed on to be uploaded; and the reference file holds the references
/// of the objects.
pub open spec fn bucket_complete(bucket: WriterRun, objects: Seq<LiveObject>) -> bool {
    let bucket_num = bucket.writer.bucket_num;
    let files = bucket.writer.files;
    &&& objects_of(bucket.parts) == objects
    &&& bucket.disk.sent == files
    &&& files.len() == bucket.parts.len() + 1
    &&& forall|k: int|
        0 <= k < bucket.parts.len() ==> {
            &&& (#[trigger] files[k]).file_type == FileType::Object
            &&& files[k].name() == object_file_name(bucket_num, bucket.parts[k].part_num)
            &&& files[k].bucket_num == bucket_num
            &&& files[k].part_num == bucket.parts[k].part_num
            &&& files[k].file_compression == bucket.writer.file_compression
        }
    &&& files.last().file_type == FileType::Reference
    &&& files.last().bucket_num == bucket_num
    &&& files.last().part_num == 0
    &&& files.last().file_compression == bucket.writer.file_compression
    &&& files.last().name() == reference_file_name(bucket_num)
    &&& bucket.disk.files.dom().contains(reference_file_name(bucket_num))
    &&& bucket.disk.files[reference_file_name(bucket_num)] == header(REFERENCE_FILE_MAGIC)
        + references_of(bucket.parts)
}

proof fn lemma_bucket_complete(r: SnapshotRun, i: int)
    requires
        r.has_buckets(),
        0 <= i < r.buckets.len(),
        r.has_finished(i),
    ensures
        bucket_complete(r.buckets[i], r.given_to(i)),
{
    reveal(WriterRun::consistent);
    let bucket = r.buckets[i];
    assert(bucket.consistent());
    assert forall|k: int| 0 <= k < bucket.parts.len() implies {
        &&& (#[trigger] bucket.writer.files[k]).file_type == FileType::Object
        &&& bucket.writer.files[k].name() == object_file_name(
            bucket.writer.bucket_num,
            bucket.parts[k].part_num,
        )
        &&& bucket.writer.files[k].bucket_num == bucket.writer.bucket_num
        &&& bucket.writer.files[k].part_num == bucket.parts[k].part_num
        &&& bucket.writer.files[k].file_compression == bucket.writer.file_compression
    } by {
        assert(is_metadata_of(bucket.writer.files[k], bucket.writer, bucket.parts[k]));
    }
}

/// A snapshot that is complete has, bucket by bucket, the object files of the bucket and then its
/// reference file, for the buckets that objects were given for and no others. All objects given
/// for a bucket have been put in its object files, in order, and their references in its reference
/// file. The manifest in the remote store consists of a header, the listing of these files, and
/// the digest of both.
///
/// That each object file is still there is another matter: see
/// [`law_complete_snapshot_is_stored`].
pub proof fn law_complete_snapshot(start: SnapshotRun, inputs: Seq<SnapshotInput>, world: World)
    requires
        start.is_start(),
        is_possible(start, inputs, world),
        snapshot_run(start, inputs).action is Complete,
    ensures
        ({
            let r = snapshot_run(start, inputs);
            &&& r.published == Some(
                world.manifest_bytes(
                    files_of(r.buckets, r.buckets.len() as int),
                    start.snapshot.epoch,
                ),
            )
            &&& r.snapshot.files == files_of(r.buckets, r.buckets.len() as int)
            &&& forall|i: int|
                0 <= i < r.buckets.len() ==> {
                    let objects = objects_for(
                        objects_in(inputs),
                        (#[trigger] r.buckets[i]).writer.bucket_num,
                    );
                    &&& objects.len() > 0
                    &&& bucket_complete(r.buckets[i], objects)
                    &&& r.buckets[i].writer.file_compression == start.snapshot.file_compression
                }
            &&& forall|i: int, j: int|
                0 <= i < j < r.buckets.len() ==> (#[trigger] r.buckets[i]).writer.bucket_num != (
                #[trigger] r.buckets[j]).writer.bucket_num
            &&& forall|bucket_num: u32| #[trigger]
                objects_for(objects_in(inputs), bucket_num).len() > 0 ==> exists|i: int|
                    0 <= i < r.buckets.len() && (#[trigger] r.buckets[i]).writer.bucket_num
                        == bucket_num
        }),
{
    law_snapshot_run_consistent(start, inputs, world);
    reveal(SnapshotRun::consistent);
    let r = snapshot_run(start, inputs);
    assert forall|i: int| 0 <= i < r.buckets.len() implies {
        let objects = objects_for(
            objects_in(inputs),
            (#[trigger] r.buckets[i]).writer.bucket_num,
        );
        &&& objects.len() > 0
        &&& bucket_complete(r.buckets[i], objects)
        &&& r.buckets[i].writer.file_compression == start.snapshot.file_compression
    } by {
        assert(r.has_finished(i));
        lemma_bucket_complete(r, i);
    }
}

/// The parts of all buckets stay in files of their own as long as no listing gives an object file
/// a number that one has already.
proof fn lemma_stored_step(r: SnapshotRun, input: SnapshotInput, world: World)
    requires
        r.consistent(world),
        r.admits(input, world),
        r.is_fresh(input),
        forall|i: int| 0 <= i < r.buckets.len() ==> (#[trigger] r.buckets[i]).parts_stored(),
    ensures
        forall|i: int|
            0 <= i < r.next(input).buckets.len() ==> (
            #[trigger] r.next(input).buckets[i]).parts_stored(),
{
    reveal(SnapshotRun::next);
    reveal(SnapshotRun::consistent);
    lemma_kind(r, world);
    let next = r.next(input);
    match input {
        SnapshotInput::Event(SnapshotEvent::Writer(event)) => {
            if !(event is Failed) {
                let index = r.snapshot.current();
                let bucket = r.buckets[index];
                let after = bucket.next(WriterInput::Event(event));
                assert(bucket.consistent());
                law_step_keeps_stored(bucket, WriterInput::Event(event));
                assert(after.parts_stored());
                assert forall|i: int| 0 <= i < next.buckets.len() implies (
                #[trigger] next.buckets[i]).parts_stored() by {
                    assert(r.buckets[i].parts_stored());
                }
            }
        },
        _ => {
            assert forall|i: int| 0 <= i < next.buckets.len() implies (
            #[trigger] next.buckets[i]).parts_stored() by {
                if i < r.buckets.len() {
                    assert(r.buckets[i].parts_stored());
                }
            }
        },
    }
}

proof fn lemma_stored(start: SnapshotRun, inputs: Seq<SnapshotInput>, world: World)
    requires
        start.is_start(),
        is_possible(start, inputs, world),
        snapshot_numbers_afresh(start, inputs),
    ensures
        forall|i: int|
            0 <= i < snapshot_run(start, inputs).buckets.len() ==> (#[trigger] snapshot_run(
                start,
                inputs,
            ).buckets[i]).parts_stored(),
    decreases inputs.len(),
{
    if inputs.len() > 0 {
        law_snapshot_run_consistent(start, inputs.drop_last(), world);
        lemma_stored(start, inputs.drop_last(), world);
        lemma_stored_step(snapshot_run(start, inputs.drop_last()), inputs.last(), world);
    }
}

proof fn lemma_rising_step(r: SnapshotRun, input: SnapshotInput, world: World)
    requires
        r.consistent(world),
        r.admits(input, world),
        r.shows_last(input),
        forall|i: int| 0 <= i < r.buckets.len() ==> (#[trigger] r.buckets[i]).parts_rising(),
    ensures
        r.is_fresh(input),
        forall|i: int|
            0 <= i < r.next(input).buckets.len() ==> (
            #[trigger] r.next(input).buckets[i]).parts_rising(),
{
    reveal(SnapshotRun::next);
    reveal(SnapshotRun::consistent);
    lemma_kind(r, world);
    let next = r.next(input);
    match input {
        SnapshotInput::Event(SnapshotEvent::Writer(event)) => {
            if !(event is Failed) {
                let index = r.snapshot.current();
                let bucket = r.buckets[index];
                let after = bucket.next(WriterInput::Event(event));
                assert(bucket.consistent());
                law_step_keeps_rising(bucket, WriterInput::Event(event));
                assert(after.parts_rising());
                if let SnapshotPhase::OpenWriter { object } = r.snapshot.phase {
                    lemma_input_keeps_rising(after, object);
                }
                if index + 1 < r.buckets.len() {
                    lemma_input_keeps_rising(r.buckets[index + 1], arbitrary());
                }
                assert forall|i: int| 0 <= i < next.buckets.len() implies (
                #[trigger] next.buckets[i]).parts_rising() by {
                    assert(r.buckets[i].parts_rising());
                }
            }
        },
        _ => {
            let object = match object_in(input) {
                Some(given) => given.0,
                None => arbitrary(),
            };
            assert forall|i: int| 0 <= i < next.buckets.len() implies (
            #[trigger] next.buckets[i]).parts_rising() by {
                if i < r.buckets.len() {
                    assert(r.buckets[i].parts_rising());
                    lemma_input_keeps_rising(r.buckets[i], object);
                }
            }
        },
    }
}

/// As long as the last object file of a bucket is still in the directory whenever that is listed
/// for the bucket, the numbers of the parts of each bucket rise, and no number comes up twice.
pub proof fn law_last_parts_listed_are_enough(
    start: SnapshotRun,
    inputs: Seq<SnapshotInput>,
    world: World,
)
    requires
        start.is_start(),
        is_possible(start, inputs, world),
        snapshot_lists_last(start, inputs),
    ensures
        snapshot_numbers_afresh(start, inputs),
        forall|i: int|
            0 <= i < snapshot_run(start, inputs).buckets.len() ==> (#[trigger] snapshot_run(
                start,
                inputs,
            ).buckets[i]).parts_rising(),
    decreases inputs.len(),
{
    if inputs.len() > 0 {
        law_snapshot_run_consistent(start, inputs.drop_last(), world);
        law_last_parts_listed_are_enough(start, inputs.drop_last(), world);
        lemma_rising_step(snapshot_run(start, inputs.drop_last()), inputs.last(), world);
    }
}

proof fn lemma_numbered_step(r: SnapshotRun, input: SnapshotInput, world: World)
    requires
        r.consistent(world),
        r.admits(input, world),
        r.is_exact(input),
        forall|i: int| 0 <= i < r.buckets.len() ==> (#[trigger] r.buckets[i]).parts_numbered(),
    ensures
        r.is_fresh(input),
        forall|i: int|
            0 <= i < r.next(input).buckets.len() ==> (
            #[trigger] r.next(input).buckets[i]).parts_numbered(),
{
    reveal(SnapshotRun::next);
    reveal(SnapshotRun::consistent);
    lemma_kind(r, world);
    let next = r.next(input);
    match input {
        SnapshotInput::Event(SnapshotEvent::Writer(event)) => {
            if !(event is Failed) {
                let index = r.snapshot.current();
                let bucket = r.buckets[index];
                let after = bucket.next(WriterInput::Event(event));
                assert(bucket.consistent());
                law_step_keeps_numbered(bucket, WriterInput::Event(event));
                if let SnapshotPhase::OpenWriter { object } = r.snapshot.phase {
                    lemma_input_keeps_numbered(after, object);
                }
                if index + 1 < r.buckets.len() {
                    lemma_input_keeps_numbered(r.buckets[index + 1], arbitrary());
                }
                assert forall|i: int| 0 <= i < next.buckets.len() implies (
                #[trigger] next.buckets[i]).parts_numbered() by {
                    assert(r.buckets[i].parts_numbered());
                }
            }
        },
        _ => {
            let object = match object_in(input) {
                Some(given) => given.0,
                None => arbitrary(),
            };
            assert forall|i: int| 0 <= i < next.buckets.len() implies (
            #[trigger] next.buckets[i]).parts_numbered() by {
                if i < r.buckets.len() {
                    assert(r.buckets[i].parts_numbered());
                    lemma_input_keeps_numbered(r.buckets[i], object);
                }
            }
        },
    }
}

proof fn lemma_numbered(start: SnapshotRun, inputs: Seq<SnapshotInput>, world: World)
    requires
        start.is_start(),
        is_possible(start, inputs, world),
        snapshot_lists_exactly(start, inputs),
    ensures
        snapshot_numbers_afresh(start, inputs),
        forall|i: int|
            0 <= i < snapshot_run(start, inputs).buckets.len() ==> (#[trigger] snapshot_run(
                start,
                inputs,
            ).buckets[i]).parts_numbered(),
    decreases inputs.len(),
{
    if inputs.len() > 0 {
        law_snapshot_run_consistent(start, inputs.drop_last(), world);
        lemma_numbered(start, inputs.drop_last(), world);
        lemma_numbered_step(snapshot_run(start, inputs.drop_last()), inputs.last(), world);
    }
}

/// In a directory that has no object files at first, and from which none is removed, the object
/// files of each bucket are numbered 1, 2 and so on. So no number comes up twice.
pub proof fn law_snapshot_parts_are_numbered_in_turn(
    start: SnapshotRun,
    inputs: Seq<SnapshotInput>,
    world: World,
)
    requires
        start.is_start(),
        is_possible(start, inputs, world),
        snapshot_lists_exactly(start, inputs),
    ensures
        ({
            let r = snapshot_run(start, inputs);
            &&& forall|i: int, k: int|
                #![trigger r.buckets[i].parts[k]]
                0 <= i < r.buckets.len() && 0 <= k < r.buckets[i].parts.len()
                    ==> r.buckets[i].parts[k].part_num == k + 1
            &&& snapshot_numbers_afresh(start, inputs)
        }),
{
    lemma_numbered(start, inputs, world);
    let r = snapshot_run(start, inputs);
    assert forall|i: int, k: int|
        #![trigger r.buckets[i].parts[k]]
        0 <= i < r.buckets.len() && 0 <= k < r.buckets[i].parts.len() implies
        r.buckets[i].parts[k].part_num == k + 1 by {
        assert(r.buckets[i].parts_numbered());
    }
}

/// Several buckets share a directory. A listing with the files that the writers of all buckets have
/// created, and no others, has for each bucket its own object files and no others.
pub proof fn law_shared_directory_lists_own(buckets: Seq<WriterRun>, i: int, names: Seq<String>)
    requires
        0 <= i < buckets.len(),
        forall|j: int| 0 <= j < buckets.len() ==> (#[trigger] buckets[j]).files_known(),
        forall|j: int|
            0 <= j < buckets.len() && j != i ==> (#[trigger] buckets[j]).writer.bucket_num
                != buckets[i].writer.bucket_num,
        buckets[i].parts_stored(),
        forall|j: int, name: Seq<char>|
            #![trigger buckets[j].disk.files.dom().contains(name)]
            0 <= j < buckets.len() && buckets[j].disk.files.dom().contains(name) ==> is_listed(
                names,
                name,
            ),
        forall|k: int|
            0 <= k < names.len() ==> exists|j: int|
                0 <= j < buckets.len() && (#[trigger] buckets[j]).disk.files.dom().contains(
                    (#[trigger] names[k])@,
                ),
    ensures
        buckets[i].lists_own(names),
{
    let bucket = buckets[i];
    let bucket_num = bucket.writer.bucket_num;
    assert forall|n: int| 0 <= n < bucket.parts.len() implies is_listed(
        names,
        bucket.name_of(#[trigger] bucket.parts[n]),
    ) by {
        assert(buckets[i].disk.files.dom().contains(bucket.name_of(bucket.parts[n])));
    }
    assert forall|k: int|
        0 <= k < names.len() && reading((#[trigger] names[k])@, bucket_num) is Part implies exists|
        n: int,
    |
        0 <= n < bucket.parts.len() && names[k]@ == bucket.name_of(#[trigger] bucket.parts[n]) by {
        let name = names[k]@;
        let j = choose|j: int|
            0 <= j < buckets.len() && (#[trigger] buckets[j]).disk.files.dom().contains(name);
        let other = buckets[j];
        assert(other.files_known());
        assert(other.disk.files.dom().contains(name));
        law_other_files_are_no_parts(other.writer.bucket_num, name, bucket_num);
        let n = choose|n: int|
            0 <= n < other.parts.len() && name == other.name_of(#[trigger] other.parts[n]);
        law_object_file_name_reads_back(
            other.writer.bucket_num,
            other.parts[n].part_num,
            bucket_num,
        );
        assert(j == i);
        assert(name == bucket.name_of(bucket.parts[n]));
    }
}

/// In a snapshot that is complete, the object file of each part of each bucket holds a header and
/// the blobs of the part's objects, and no two parts of a bucket share a file: provided that no
/// listing of the directory gave an object file a number that one had already. With
/// [`law_complete_snapshot`], every object that was given is in an object file.
pub proof fn law_complete_snapshot_is_stored(
    start: SnapshotRun,
    inputs: Seq<SnapshotInput>,
    world: World,
)
    requires
        start.is_start(),
        is_possible(start, inputs, world),
        snapshot_numbers_afresh(start, inputs),
        snapshot_run(start, inputs).action is Complete,
    ensures
        ({
            let r = snapshot_run(start, inputs);
            &&& forall|i: int, k: int|
                #![trigger r.buckets[i].parts[k]]
                0 <= i < r.buckets.len() && 0 <= k < r.buckets[i].parts.len() ==> {
                    let name = object_file_name(
                        r.buckets[i].writer.bucket_num,
                        r.buckets[i].parts[k].part_num,
                    );
                    &&& r.buckets[i].disk.files.dom().contains(name)
                    &&& r.buckets[i].disk.files[name] == header(OBJECT_FILE_MAGIC) + frames(
                        r.buckets[i].parts[k].objects,
                    )
                }
            &&& forall|i: int, j: int, k: int|
                #![trigger r.buckets[i].parts[j], r.buckets[i].parts[k]]
                0 <= i < r.buckets.len() && 0 <= j < k < r.buckets[i].parts.len()
                    ==> r.buckets[i].parts[j].part_num != r.buckets[i].parts[k].part_num
        }),
{
    lemma_stored(start, inputs, world);
    let r = snapshot_run(start, inputs);
    assert forall|i: int, k: int|
        #![trigger r.buckets[i].parts[k]]
        0 <= i < r.buckets.len() && 0 <= k < r.buckets[i].parts.len() implies {
        let name = object_file_name(
            r.buckets[i].writer.bucket_num,
            r.buckets[i].parts[k].part_num,
        );
        &&& r.buckets[i].disk.files.dom().contains(name)
        &&& r.buckets[i].disk.files[name] == header(OBJECT_FILE_MAGIC) + frames(
            r.buckets[i].parts[k].objects,
        )
    } by {
        assert(r.buckets[i].parts_stored());
    }
    assert forall|i: int, j: int, k: int|
        #![trigger r.buckets[i].parts[j], r.buckets[i].parts[k]]
        0 <= i < r.buckets.len() && 0 <= j < k < r.buckets[i].parts.len() implies
        r.buckets[i].parts[j].part_num != r.buckets[i].parts[k].part_num by {
        assert(r.buckets[i].parts_stored());
    }
}

/// A file of the first buckets is a file of one of them.
proof fn lemma_files_of_member(buckets: Seq<WriterRun>, count: int, n: int) -> (at: (int, int))
    requires
        count <= buckets.len(),
        0 <= n < files_of(buckets, count).len(),
    ensures
        0 <= at.0 < count,
        0 <= at.1 < buckets[at.0].writer.files.len(),
        files_of(buckets, count)[n] == buckets[at.0].writer.files[at.1],
    decreases count,
{
    let before = files_of(buckets, count - 1);
    if n < before.len() {
        lemma_files_of_member(buckets, count - 1, n)
    } else {
        (count - 1, n - before.len())
    }
}

/// The file `file` has been handed on, and its upload has brought its bytes to the remote store and
/// removed it from the local one.
pub open spec fn is_uploaded(r: SnapshotRun, world: World, file: FileMetadata) -> bool {
    exists|i: int, k: int|
        #![trigger r.buckets[i].disk.sent[k]]
        {
            let bytes = r.bytes_of(world, i, k);
            let upload = upload_run(r.path_of(i, k), bytes, r.upload_of(world, i, k));
            &&& 0 <= i < r.buckets.len()
            &&& 0 <= k < r.buckets[i].disk.sent.len()
            &&& r.buckets[i].disk.sent[k] == file
            &&& upload.upload.path == path_in(r.snapshot.dir(), file.name())
            &&& upload.remote == Some(bytes)
            &&& upload.local is None
        }
}

proof fn lemma_listed_is_uploaded(r: SnapshotRun, world: World, n: int)
    requires
        r.has_buckets(),
        r.files_complete(),
        r.all_uploaded(world),
        0 <= n < r.snapshot.files.len(),
    ensures
        is_uploaded(r, world, r.snapshot.files[n]),
{
    let (i, k) = lemma_files_of_member(r.buckets, r.buckets.len() as int, n);
    assert(r.has_finished(i));
    lemma_bucket_complete(r, i);
    assert(r.buckets[i].disk.sent[k] == r.snapshot.files[n]);
    law_upload_keeps_file(r.path_of(i, k), r.bytes_of(world, i, k), r.upload_of(world, i, k));
}

/// The manifest comes last. What manifest there was in the remote store stays until the remote
/// directory of the epoch is deleted, which is done before anything is written; from then on there
/// is none until the snapshot is complete. When it is to be copied there, the uploads have ended
/// well; the manifest file is complete; and every file that it lists has been handed on, is in the
/// remote store and is gone from the local one. Once it has been copied, the snapshot is complete.
pub proof fn law_manifest_comes_last(start: SnapshotRun, inputs: Seq<SnapshotInput>, world: World)
    requires
        start.is_start(),
        is_possible(start, inputs, world),
    ensures
        ({
            let r = snapshot_run(start, inputs);
            &&& !r.deleted ==> r.published == start.published
            &&& r.deleted && !(r.action is Complete) ==> r.published is None
            &&& !(r.snapshot.phase is OpenRemoteStore || r.snapshot.phase is DeleteRemoteDir
                || r.snapshot.phase is Closed) ==> r.deleted
            &&& r.action is Complete ==> r.deleted && r.published == Some(r.manifest)
            &&& r.action is CopyManifest ==> {
                &&& r.uploads is Joined
                &&& r.manifest == world.manifest_bytes(r.snapshot.files, start.snapshot.epoch)
                &&& r.snapshot.on_event(SnapshotEvent::Done).1 is Complete
            }
            &&& r.action is CopyManifest || r.action is Complete ==> forall|n: int|
                0 <= n < r.snapshot.files.len() ==> is_uploaded(
                    r,
                    world,
                    #[trigger] r.snapshot.files[n],
                )
            &&& r.action is Complete ==> r.snapshot.phase is Closed
        }),
{
    law_snapshot_run_consistent(start, inputs, world);
    let r = snapshot_run(start, inputs);
    lemma_manifest_last(r, world);
    if r.action is CopyManifest || r.action is Complete {
        assert forall|n: int| 0 <= n < r.snapshot.files.len() implies is_uploaded(
            r,
            world,
            #[trigger] r.snapshot.files[n],
        ) by {
            lemma_listed_is_uploaded(r, world, n);
        }
    }
}

proof fn lemma_manifest_last(r: SnapshotRun, world: World)
    requires
        r.consistent(world),
        r.action is Complete ==> r.snapshot.phase is Closed,
    ensures
        r.deleted && r.published is Some ==> r.action is Complete,
        r.action is Complete ==> r.deleted && r.published == Some(r.manifest),
        !(r.snapshot.phase is OpenRemoteStore || r.snapshot.phase is DeleteRemoteDir
            || r.snapshot.phase is Closed) ==> r.deleted,
        r.snapshot.phase is JoinUpload || r.snapshot.phase is CopyManifest || r.action is Complete
            ==> r.manifest_complete(world),
        r.snapshot.phase is CopyManifest ==> {
            &&& r.uploads is Joined
            &&& r.snapshot.on_event(SnapshotEvent::Done).1 is Complete
        },
        r.snapshot.phase is CopyManifest || r.action is Complete ==> {
            &&& r.has_buckets()
            &&& r.files_complete()
            &&& r.all_uploaded(world)
        },
{
    reveal(SnapshotRun::consistent);
}

/// The manifest can be read back: its first bytes are the header; what stands between the header
/// and the digest decodes to the listing of the files, in order and with nothing left out, by any
/// decoder that gives back what was encoded; and its last bytes are the digest of all that stands
/// before them. So it is of the local manifest file from when the uploads are waited for, and of
/// the manifest in the remote store.
pub proof fn law_manifest_reads_back(
    start: SnapshotRun,
    inputs: Seq<SnapshotInput>,
    world: World,
    decode: spec_fn(Seq<u8>) -> Option<ManifestView>,
)
    requires
        start.is_start(),
        is_possible(start, inputs, world),
        forall|manifest: ManifestView|
            decode(#[trigger] (world.encode)(manifest)) == Some(manifest),
        snapshot_run(start, inputs).snapshot.phase is JoinUpload || snapshot_run(
            start,
            inputs,
        ).action is CopyManifest || snapshot_run(start, inputs).action is Complete,
    ensures
        ({
            let r = snapshot_run(start, inputs);
            let bytes = r.manifest;
            let end = bytes.len() - SHA3_BYTES;
            &&& MAGIC_BYTES <= end
            &&& bytes.take(MAGIC_BYTES as int) == header(MANIFEST_FILE_MAGIC)
            &&& match decode(bytes.subrange(MAGIC_BYTES as int, end)) {
                Some(manifest) => {
                    &&& manifest == ManifestView::listing(r.snapshot.files, start.snapshot.epoch)
                    &&& manifest.file_metadata == r.snapshot.files
                    &&& manifest.epoch == start.snapshot.epoch
                    &&& manifest.snapshot_version == 1
                    &&& manifest.address_length == 32
                },
                None => false,
            }
            &&& read_be(bytes.take(4)) == 0x00C0FFEE
            &&& bytes.skip(end) == (world.digest)(bytes.take(end))
            &&& r.action is Complete ==> r.published == Some(bytes)
        }),
{
    law_snapshot_run_consistent(start, inputs, world);
    let r = snapshot_run(start, inputs);
    lemma_manifest_last(r, world);
    let bytes = r.manifest;
    let end = bytes.len() - SHA3_BYTES;
    let listing = ManifestView::listing(r.snapshot.files, start.snapshot.epoch);
    let encoded = (world.encode)(listing);
    let body = r.body(world);
    lemma_be_bytes_len(MANIFEST_FILE_MAGIC as nat, MAGIC_BYTES as nat);
    law_header_reads_back(MANIFEST_FILE_MAGIC);
    law_manifest_lists_files(r.snapshot.files, start.snapshot.epoch);
    assert(listing.file_metadata =~= r.snapshot.files);
    assert(bytes == body + (world.digest)(body));
    assert(body == header(MANIFEST_FILE_MAGIC) + encoded);
    assert(bytes.take(MAGIC_BYTES as int) =~= header(MANIFEST_FILE_MAGIC));
    assert(bytes.subrange(MAGIC_BYTES as int, end) =~= encoded);
    assert(bytes.take(end) =~= body);
    assert(bytes.skip(end) =~= (world.digest)(body));
}

/// A file of one of the first buckets is among the files of these buckets.
proof fn lemma_files_of_has(buckets: Seq<WriterRun>, count: int, i: int, k: int) -> (n: int)
    requires
        0 <= i < count <= buckets.len(),
        0 <= k < buckets[i].writer.files.len(),
    ensures
        0 <= n < files_of(buckets, count).len(),
        files_of(buckets, count)[n] == buckets[i].writer.files[k],
    decreases count,
{
    if i < count - 1 {
        lemma_files_of_has(buckets, count - 1, i, k)
    } else {
        files_of(buckets, count - 1).len() as int + k
    }
}

/// The manifest that is serialized lists the files that the writers of all buckets have handed on:
/// bucket by bucket, one by one and in order, every one of them and nothing else. It has the epoch
/// of the snapshot, version 1 and the length of an address.
pub proof fn law_serialized_manifest(start: SnapshotRun, inputs: Seq<SnapshotInput>, world: World)
    requires
        start.is_start(),
        is_possible(start, inputs, world),
        snapshot_run(start, inputs).action is SerializeManifest,
    ensures
        ({
            let r = snapshot_run(start, inputs);
            let manifest = r.action->SerializeManifest_0;
            let files = files_of(r.buckets, r.buckets.len() as int);
            &&& manifest.epoch == start.snapshot.epoch
            &&& manifest.snapshot_version == 1
            &&& manifest.address_length == 32
            &&& manifest.file_metadata.len() == files.len()
            &&& forall|n: int|
                0 <= n < files.len() ==> #[trigger] manifest.file_metadata[n] == files[n]
            &&& forall|i: int|
                0 <= i < r.buckets.len() ==> (#[trigger] r.buckets[i]).writer.files
                    == r.buckets[i].disk.sent
            &&& forall|i: int, k: int|
                #![trigger r.buckets[i].disk.sent[k]]
                0 <= i < r.buckets.len() && 0 <= k < r.buckets[i].disk.sent.len()
                    ==> manifest.file_metadata.contains(r.buckets[i].disk.sent[k])
        }),
{
    law_snapshot_run_consistent(start, inputs, world);
    reveal(SnapshotRun::consistent);
    let r = snapshot_run(start, inputs);
    let manifest = r.action->SerializeManifest_0;
    let len = r.buckets.len() as int;
    law_manifest_lists_files(r.snapshot.files, r.snapshot.epoch);
    assert(manifest.file_metadata =~= files_of(r.buckets, len));
    assert forall|i: int| 0 <= i < len implies (#[trigger] r.buckets[i]).writer.files
        == r.buckets[i].disk.sent by {
        assert(r.has_finished(i));
        lemma_bucket_complete(r, i);
    }
    assert forall|i: int, k: int|
        #![trigger r.buckets[i].disk.sent[k]]
        0 <= i < len && 0 <= k < r.buckets[i].disk.sent.len() implies
        manifest.file_metadata.contains(r.buckets[i].disk.sent[k]) by {
        assert(r.buckets[i].writer.files == r.buckets[i].disk.sent);
        let n = lemma_files_of_has(r.buckets, len, i, k);
        assert(manifest.file_metadata[n] == r.buckets[i].disk.sent[k]);
    }
}

/// The files of a bucket have kept their digests, and its parts have been ended only when full.
pub open spec fn bucket_kept(bucket: WriterRun) -> bool {
    bucket.digests_kept() && bucket.parts_filled()
}

proof fn lemma_input_kept(bucket: WriterRun, object: LiveObject)
    requires
        bucket.consistent(),
        bucket_kept(bucket),
        bucket.writer.phase is Idle,
        bucket.action is Opened || bucket.action is Written,
    ensures
        bucket_kept(bucket.next(WriterInput::Write(object))),
        bucket_kept(bucket.next(WriterInput::Done)),
{
    law_step_keeps_digests(bucket, WriterInput::Write(object));
    law_step_keeps_filled(bucket, WriterInput::Write(object));
    law_step_keeps_digests(bucket, WriterInput::Done);
    law_step_keeps_filled(bucket, WriterInput::Done);
}

proof fn lemma_event_kept(bucket: WriterRun, event: WriterEvent)
    requires
        bucket.consistent(),
        bucket_kept(bucket),
        bucket.admits(WriterInput::Event(event)),
    ensures
        ({
            let after = bucket.next(WriterInput::Event(event));
            &&& after.consistent()
            &&& bucket_kept(after)
            &&& after.action is Opened ==> after.writer.phase is Idle
        }),
{
    law_step_keeps_consistent(bucket, WriterInput::Event(event));
    law_step_keeps_digests(bucket, WriterInput::Event(event));
    law_step_keeps_filled(bucket, WriterInput::Event(event));
}

proof fn lemma_kept_event(r: SnapshotRun, event: WriterEvent, world: World)
    requires
        r.consistent(world),
        !(event is Failed),
        r.admits(SnapshotInput::Event(SnapshotEvent::Writer(event)), world),
        forall|i: int| 0 <= i < r.buckets.len() ==> bucket_kept(#[trigger] r.buckets[i]),
    ensures
        forall|i: int|
            0 <= i < r.buckets_after(event).len() ==> bucket_kept(
                #[trigger] r.buckets_after(event)[i],
            ),
{
    reveal(SnapshotRun::consistent);
    lemma_kind(r, world);
    let index = r.snapshot.current();
    let bucket = r.buckets[index];
    assert(bucket.consistent());
    assert(bucket_kept(bucket));
    lemma_event_kept(bucket, event);
    let after = bucket.next(WriterInput::Event(event));
    if let SnapshotPhase::OpenWriter { object } = r.snapshot.phase {
        if after.action is Opened {
            lemma_input_kept(after, object);
        }
    }
    if r.snapshot.phase is FinishWriter && index + 1 < r.buckets.len() {
        assert(r.waits(index + 1));
        assert(bucket_kept(r.buckets[index + 1]));
        assert(r.buckets[index + 1].consistent());
        lemma_input_kept(r.buckets[index + 1], arbitrary());
    }
    let next = r.buckets_after(event);
    assert forall|i: int| 0 <= i < next.len() implies bucket_kept(#[trigger] next[i]) by {
        assert(bucket_kept(r.buckets[i]));
    }
}

proof fn lemma_kept_step(r: SnapshotRun, input: SnapshotInput, world: World)
    requires
        r.consistent(world),
        r.admits(input, world),
        forall|i: int| 0 <= i < r.buckets.len() ==> bucket_kept(#[trigger] r.buckets[i]),
    ensures
        forall|i: int|
            0 <= i < r.next(input).buckets.len() ==> bucket_kept(
                #[trigger] r.next(input).buckets[i],
            ),
{
    let next = r.next(input);
    match input {
        SnapshotInput::Event(SnapshotEvent::Writer(event)) => {
            reveal(SnapshotRun::next);
            if !(event is Failed) {
                lemma_kept_event(r, event, world);
                assert(next.buckets == r.buckets_after(event));
            }
        },
        _ => {
            reveal(SnapshotRun::next);
            reveal(SnapshotRun::consistent);
            lemma_kind(r, world);
            let object = match object_in(input) {
                Some(given) => given.0,
                None => arbitrary(),
            };
            assert forall|i: int| 0 <= i < next.buckets.len() implies bucket_kept(
                #[trigger] next.buckets[i],
            ) by {
                if i < r.buckets.len() {
                    assert(bucket_kept(r.buckets[i]));
                    assert(r.buckets[i].consistent());
                    if r.snapshot.phase is NextObject {
                        assert(r.waits(i));
                        lemma_input_kept(r.buckets[i], object);
                    }
                }
            }
        },
    }
}

proof fn lemma_kept(start: SnapshotRun, inputs: Seq<SnapshotInput>, world: World)
    requires
        start.is_start(),
        is_possible(start, inputs, world),
    ensures
        forall|i: int|
            0 <= i < snapshot_run(start, inputs).buckets.len() ==> bucket_kept(
                #[trigger] snapshot_run(start, inputs).buckets[i],
            ),
    decreases inputs.len(),
{
    if inputs.len() > 0 {
        law_snapshot_run_consistent(start, inputs.drop_last(), world);
        lemma_kept(start, inputs.drop_last(), world);
        lemma_kept_step(snapshot_run(start, inputs.drop_last()), inputs.last(), world);
    }
}

/// In a snapshot that is complete, every file that is listed has exactly the digest that its
/// completion was answered with; and in every bucket a part has been ended only where the next
/// object would have taken it past 128 MiB.
pub proof fn law_complete_snapshot_keeps_digests(
    start: SnapshotRun,
    inputs: Seq<SnapshotInput>,
    world: World,
)
    requires
        start.is_start(),
        is_possible(start, inputs, world),
        snapshot_run(start, inputs).action is Complete,
    ensures
        ({
            let r = snapshot_run(start, inputs);
            &&& r.snapshot.files == files_of(r.buckets, r.buckets.len() as int)
            &&& forall|i: int|
                0 <= i < r.buckets.len() ==> (#[trigger] r.buckets[i]).writer.files.len()
                    == r.buckets[i].sealed.len()
            &&& forall|i: int, k: int|
                #![trigger r.buckets[i].sealed[k]]
                0 <= i < r.buckets.len() && 0 <= k < r.buckets[i].sealed.len() ==> {
                    &&& r.buckets[i].writer.files[k].name() == r.buckets[i].sealed[k].0
                    &&& r.buckets[i].writer.files[k].sha3_digest == r.buckets[i].sealed[k].1
                }
            &&& forall|i: int, k: int|
                #![trigger r.buckets[i].parts[k]]
                0 <= i < r.buckets.len() && 0 < k < r.buckets[i].parts.len() ==> {
                    &&& r.buckets[i].parts[k].objects.len() > 0
                    &&& r.buckets[i].parts[k - 1].bytes().len()
                        + r.buckets[i].parts[k].objects[0].blob.frame().len() > 134217728
                }
        }),
{
    law_snapshot_run_consistent(start, inputs, world);
    lemma_kept(start, inputs, world);
    law_complete_snapshot(start, inputs, world);
    reveal(SnapshotRun::consistent);
    let r = snapshot_run(start, inputs);
    assert forall|i: int| 0 <= i < r.buckets.len() implies (
    #[trigger] r.buckets[i]).writer.files.len() == r.buckets[i].sealed.len() by {
        assert(bucket_kept(r.buckets[i]));
    }
    assert forall|i: int, k: int|
        #![trigger r.buckets[i].sealed[k]]
        0 <= i < r.buckets.len() && 0 <= k < r.buckets[i].sealed.len() implies {
        &&& r.buckets[i].writer.files[k].name() == r.buckets[i].sealed[k].0
        &&& r.buckets[i].writer.files[k].sha3_digest == r.buckets[i].sealed[k].1
    } by {
        assert(bucket_kept(r.buckets[i]));
    }
    assert forall|i: int, k: int|
        #![trigger r.buckets[i].parts[k]]
        0 <= i < r.buckets.len() && 0 < k < r.buckets[i].parts.len() implies {
        &&& r.buckets[i].parts[k].objects.len() > 0
        &&& r.buckets[i].parts[k - 1].bytes().len()
            + r.buckets[i].parts[k].objects[0].blob.frame().len() > 134217728
    } by {
        assert(bucket_kept(r.buckets[i]));
        assert(r.has_finished(i));
    }
}

/// The manifest file is replaced, whatever it held before: once it has been created, the run goes
/// on as it would have gone on from any other bytes, so that nothing of them is left.
pub proof fn law_manifest_is_replaced(
    r: SnapshotRun,
    before: Seq<u8>,
    inputs: Seq<SnapshotInput>,
)
    requires
        r.action is CreateManifest,
        inputs.len() > 0,
        inputs[0] == SnapshotInput::Event(SnapshotEvent::Done),
    ensures
        snapshot_run(SnapshotRun { manifest: before, ..r }, inputs) == snapshot_run(r, inputs),
        snapshot_run(r, inputs.take(1)).manifest == r.action->CreateManifest_header,
    decreases inputs.len(),
{
    let other = SnapshotRun { manifest: before, ..r };
    let first = inputs.take(1);
    lemma_first_step(r, first);
    lemma_first_step(other, first);
    lemma_manifest_created(r, before);
    if inputs.len() == 1 {
        assert(inputs =~= first);
    } else {
        assert(inputs.drop_last().take(1) =~= first);
        law_manifest_is_replaced(r, before, inputs.drop_last());
    }
}

proof fn lemma_first_step(r: SnapshotRun, inputs: Seq<SnapshotInput>)
    requires
        inputs.len() == 1,
    ensures
        snapshot_run(r, inputs) == r.next(inputs[0]),
{
    reveal_with_fuel(snapshot_run, 2);
    assert(inputs.drop_last().len() == 0);
    assert(inputs.last() == inputs[0]);
}

proof fn lemma_manifest_created(r: SnapshotRun, before: Seq<u8>)
    requires
        r.action is CreateManifest,
    ensures
        ({
            let done = SnapshotInput::Event(SnapshotEvent::Done);
            &&& SnapshotRun { manifest: before, ..r }.next(done) == r.next(done)
            &&& r.next(done).manifest == r.action->CreateManifest_header
        }),
{
    reveal(SnapshotRun::next);
}

/// An object goes to the writer of its bucket, which is opened if there is none; the writers of
/// the other buckets stay as they are.
pub proof fn law_object_goes_to_its_bucket(s: SnapshotView, object: LiveObject, bucket_num: u32)
    requires
        s.wf(),
        s.phase is NextObject,
    ensures
        ({
            let (next, action) = s.on_object(object, bucket_num);
            let index = next.current();
            &&& action is Writer
            &&& action->Writer_bucket_num == bucket_num
            &&& 0 <= index < next.writers.len()
            &&& next.writers[index].bucket_num == bucket_num
            &&& next.writers.len() == s.writers.len() + if s.has_writer(bucket_num) {
                0int
            } else {
                1
            }
            &&& forall|i: int|
                0 <= i < s.writers.len() && i != index ==> (#[trigger] next.writers[i])
                    == s.writers[i]
            &&& next.files == s.files
        }),
{
    if s.has_writer(bucket_num) {
        let index = s.writer_of(bucket_num);
        assert(0 <= index < s.writers.len());
        assert(s.writers[index].bucket_num == bucket_num);
        assert(s.writers[index].on_write(object).0.bucket_num == bucket_num);
    }
}

/// A writer that has given up, or is through, asks for nothing more.
pub proof fn law_closed_stays_closed(s: SnapshotView, event: SnapshotEvent)
    requires
        s.phase is Closed,
    ensures
        s.on_event(event) == s.give_up(),
        s.on_event(event).0 == s,
{
}

/// An object that could not be encoded ends the snapshot: at once if its bucket has a writer, and
/// else when that is open, or cannot be opened. Nothing but the opening is asked for before.
pub proof fn law_unencoded_object_ends_snapshot(
    s: SnapshotView,
    bucket_num: u32,
    event: WriterEvent,
)
    ensures
        s.has_writer(bucket_num) ==> s.on_unencoded(bucket_num) == s.give_up(),
        !s.has_writer(bucket_num) ==> {
            let (next, action) = s.on_unencoded(bucket_num);
            &&& next.phase is OpenInVain
            &&& next.writers == s.writers.push(
                WriterView::opening(bucket_num, s.file_compression),
            )
            &&& action == (SnapshotActionView::Writer {
                bucket_num,
                action: WriterActionView::ListDirectory,
            })
        },
        s.phase is OpenInVain ==> {
            let (next, action) = s.on_event(SnapshotEvent::Writer(event));
            let (writer, asked) = s.writers.last().on_event(event);
            match asked {
                WriterActionView::Opened | WriterActionView::GiveUp => next.phase is Closed
                    && action is GiveUp,
                WriterActionView::BadName(error) => next.phase is Closed && action
                    == SnapshotActionView::Fail(SnapshotError::BadName(error)),
                _ => next.phase is OpenInVain && action == (SnapshotActionView::Writer {
                    bucket_num: writer.bucket_num,
                    action: asked,
                }),
            }
        },
{
}

/// Whatever fails, the writer gives up, and says which epoch it was where an upload failed.
pub proof fn law_failure_ends_snapshot(s: SnapshotView)
    ensures
        s.on_event(SnapshotEvent::Failed).0 == s.at(SnapshotPhase::Closed),
        s.on_event(SnapshotEvent::Failed).1 == if s.phase is JoinUpload {
            SnapshotActionView::Fail(SnapshotError::UploadFailed { epoch: s.epoch })
        } else {
            SnapshotActionView::GiveUp
        },
{
}

/// Setting up goes in this order: the remote directory of the epoch is deleted, the local one must
/// not be there yet, and is created. Without a local directory, or with one of the epoch already
/// there, there is no snapshot, and no directory is created.
pub proof fn law_setup(
    epoch: u64,
    has_local_directory: bool,
    file_compression: FileCompression,
    concurrency: usize,
)
    ensures
        ({
            let s0 = SnapshotView::setting_up(
                epoch,
                has_local_directory,
                file_compression,
                concurrency,
            );
            let (s1, a1) = s0.on_event(SnapshotEvent::Done);
            let (s2, a2) = s1.on_event(SnapshotEvent::Done);
            let (s3, a3) = s2.on_event(SnapshotEvent::Done);
            let (s4, a4) = s3.on_event(SnapshotEvent::Exists(false));
            let (s5, a5) = s4.on_event(SnapshotEvent::Done);
            let (s6, a6) = s5.on_event(SnapshotEvent::Done);
            &&& a1 == (SnapshotActionView::DeleteRemoteDir { path: epoch_dir_name(epoch) })
            &&& a2 is OpenLocalStore
            &&& !has_local_directory ==> a3 == SnapshotActionView::Fail(
                SnapshotError::NoLocalDirectory,
            ) && s3.phase is Closed
            &&& has_local_directory ==> {
                &&& a3 == (SnapshotActionView::CheckLocalDir { path: epoch_dir_name(epoch) })
                &&& s3.on_event(SnapshotEvent::Exists(true)) == s3.fail(
                    SnapshotError::LocalEpochDirExists,
                )
                &&& a4 == (SnapshotActionView::CreateLocalDir { path: epoch_dir_name(epoch) })
                &&& a5 == (SnapshotActionView::OpenLocalDir { path: epoch_dir_name(epoch) })
                &&& a6 is Ready
                &&& s6.phase is Ready
            }
        }),
{
}

} // verus!
