//! What the writers and the uploads ask for, one step at a time: what each request holds, which
//! answers a request takes, and what an answer that it does not take leads to.
use crate::encoding::{
    Blob, LiveObject, ObjectRef, MANIFEST_FILE_MAGIC, OBJECT_FILE_MAGIC, REFERENCE_FILE_MAGIC,
    SHA3_BYTES,
};
use crate::metadata::{
    is_plain_char, is_plain_segment, path_in, FileCompression, FileType,
};
use crate::name_laws::{law_first_fault, law_highest_part};
use crate::names::{
    epoch_dir_name, next_part, object_file_name, reading, reference_file_name, temporary_name,
    NameError, NameReading,
};
use crate::object_writer::{WriterAction, WriterActionView, WriterEvent, WriterPhase, WriterView};
use crate::read_back_laws::{law_header_reads_back, law_manifest_lists_files, read_be};
use crate::snapshot_writer::{
    bucket_of, SnapshotAction, SnapshotActionView, SnapshotError, SnapshotEvent, SnapshotPhase,
    SnapshotView,
};
use crate::upload::{UploadAction, UploadActionView, UploadEvent, UploadPhase, UploadView};
use vstd::prelude::*;

verus! {

/// The view of a writer's request has what the request has.
pub proof fn law_writer_action_view(action: WriterAction)
    ensures
        match (action, action@) {
            (WriterAction::ListDirectory, WriterActionView::ListDirectory) => true,
            (
                WriterAction::CreateObject { tmp_name, name, header },
                WriterActionView::CreateObject {
                    tmp_name: shown_tmp_name,
                    name: shown_name,
                    header: shown_header,
                },
            ) => {
                tmp_name@ == shown_tmp_name && name@ == shown_name && header@ == shown_header
            },
            (
                WriterAction::CreateReference { tmp_name, name, header },
                WriterActionView::CreateReference {
                    tmp_name: shown_tmp_name,
                    name: shown_name,
                    header: shown_header,
                },
            ) => {
                tmp_name@ == shown_tmp_name && name@ == shown_name && header@ == shown_header
            },
            (WriterAction::AppendObject(x), WriterActionView::AppendObject(y)) => x@ == y,
            (WriterAction::AppendReference(x), WriterActionView::AppendReference(y)) => x@ == y,
            (
                WriterAction::SealObject { name },
                WriterActionView::SealObject { name: shown_name },
            ) => {
                name@ == shown_name
            },
            (
                WriterAction::SealReference { name },
                WriterActionView::SealReference { name: shown_name },
            ) => {
                name@ == shown_name
            },
            (WriterAction::Send(x), WriterActionView::Send(y)) => x == y,
            (WriterAction::Opened, WriterActionView::Opened) => true,
            (WriterAction::Written, WriterActionView::Written) => true,
            (WriterAction::Finished(x), WriterActionView::Finished(y)) => x@ == y,
            (WriterAction::BadName(x), WriterActionView::BadName(y)) => x == y,
            (WriterAction::GiveUp, WriterActionView::GiveUp) => true,
            _ => false,
        },
{
}

/// A new object file is created under its temporary name, opens with the magic number of object
/// files, and gets the name of its bucket and part; a reference file likewise.
pub proof fn law_created_files(w: WriterView, part_num: u32)
    ensures
        match w.create_object(part_num) {
            WriterActionView::CreateObject { tmp_name, name, header } => {
                &&& name == object_file_name(w.bucket_num, part_num)
                &&& tmp_name == temporary_name(name)
                &&& header.len() == 4
                &&& read_be(header) == 0x00B7EC75
            },
            _ => false,
        },
        match w.create_reference() {
            WriterActionView::CreateReference { tmp_name, name, header } => {
                &&& name == reference_file_name(w.bucket_num)
                &&& tmp_name == temporary_name(name)
                &&& header.len() == 4
                &&& read_be(header) == 0xDEADBEEF
            },
            _ => false,
        },
        w.seal_object() == (WriterActionView::SealObject {
            name: object_file_name(w.bucket_num, w.current_part_num),
        }),
        w.seal_reference() == (WriterActionView::SealReference {
            name: reference_file_name(w.bucket_num),
        }),
{
    law_header_reads_back(OBJECT_FILE_MAGIC);
    law_header_reads_back(REFERENCE_FILE_MAGIC);
}

/// The metadata of a file has the bucket, the part, the compression and the digest of that file.
pub proof fn law_file_metadata(w: WriterView, digest: [u8; SHA3_BYTES])
    ensures
        ({
            let file = w.object_metadata(digest);
            &&& file.file_type == FileType::Object
            &&& file.bucket_num == w.bucket_num
            &&& file.part_num == w.current_part_num
            &&& file.file_compression == w.file_compression
            &&& file.sha3_digest == digest
        }),
        ({
            let file = w.reference_metadata(digest);
            &&& file.file_type == FileType::Reference
            &&& file.bucket_num == w.bucket_num
            &&& file.part_num == 0
            &&& file.file_compression == w.file_compression
            &&& file.sha3_digest == digest
        }),
{
}

/// Whether an object goes to the open object file or to a new one: to the open one if and only if
/// that has at most 128 MiB with it.
pub proof fn law_write_decides(w: WriterView, object: LiveObject)
    ensures
        ({
            let (next, action) = w.on_write(object);
            if w.n + object.blob.frame().len() <= 134217728 {
                &&& action == WriterActionView::AppendObject(object.blob.frame())
                &&& next == w.at(WriterPhase::AppendObject { object })
            } else {
                &&& action is SealObject
                &&& next == w.at(WriterPhase::CutSeal { object })
            }
        }),
{
}

/// The event is one that the writer of a bucket waits for in the phase.
pub open spec fn writer_expects(phase: WriterPhase, event: WriterEvent) -> bool {
    match phase {
        WriterPhase::Opening => event is Listed,
        WriterPhase::OpeningObject { .. } => event is Created,
        WriterPhase::OpeningReference => event is Created,
        WriterPhase::Idle => false,
        WriterPhase::CutSeal { .. } => event is Sealed,
        WriterPhase::CutSend { .. } => event is Done,
        WriterPhase::CutDelimit { .. } => event is Done,
        WriterPhase::CutList { .. } => event is Listed,
        WriterPhase::CutCreate { .. } => event is Created,
        WriterPhase::AppendObject { .. } => event is Done,
        WriterPhase::AppendReference { .. } => event is Done,
        WriterPhase::DoneSeal => event is Sealed,
        WriterPhase::DoneSend => event is Done,
        WriterPhase::DoneSealReference => event is Sealed,
        WriterPhase::DoneSendReference => event is Done,
        WriterPhase::Closed => false,
    }
}

/// The writer of a bucket gives up on an answer that it does not wait for, a failure among them,
/// and on no other. Nothing is then changed but what it waits for: an open writer waits for an
/// object again, any other for nothing.
pub proof fn law_writer_gives_up(w: WriterView, event: WriterEvent)
    ensures
        w.on_event(event).1 is GiveUp <==> !writer_expects(w.phase, event),
        !writer_expects(w.phase, event) ==> w.on_event(event).0 == w.at(
            match w.phase {
                WriterPhase::Opening => WriterPhase::Closed,
                WriterPhase::OpeningObject { .. } => WriterPhase::Closed,
                WriterPhase::OpeningReference => WriterPhase::Closed,
                WriterPhase::DoneSeal => WriterPhase::Closed,
                WriterPhase::DoneSend => WriterPhase::Closed,
                WriterPhase::DoneSealReference => WriterPhase::Closed,
                WriterPhase::DoneSendReference => WriterPhase::Closed,
                WriterPhase::Closed => WriterPhase::Closed,
                _ => WriterPhase::Idle,
            },
        ),
{
}

/// A listing of the directory gives the next object file its number, or the error of its first
/// faulty name.
pub proof fn law_listing_is_used(w: WriterView, names: Vec<String>)
    requires
        w.phase is Opening || w.phase is CutList,
    ensures
        match next_part(names@, w.bucket_num) {
            Ok(part_num) => {
                &&& w.on_event(WriterEvent::Listed(names)).1 == w.create_object(part_num)
                &&& match w.on_event(WriterEvent::Listed(names)).0.phase {
                    WriterPhase::OpeningObject { part_num: p } => w.phase is Opening && p
                        == part_num,
                    WriterPhase::CutCreate { object, part_num: p } => p == part_num && w.phase
                        == (WriterPhase::CutList { object }),
                    _ => false,
                }
            },
            Err(error) => w.on_event(WriterEvent::Listed(names)).1 == WriterActionView::BadName(
                error,
            ),
        },
{
}

/// A writer is opened in three steps: the directory is listed, an object file is created with the
/// number that the listing gives it, and the reference file is created. The size of the object file
/// is then what was written of its header.
pub proof fn law_opening(
    bucket_num: u32,
    file_compression: FileCompression,
    names: Vec<String>,
    part_num: u32,
    written: usize,
    reference_written: usize,
)
    requires
        next_part(names@, bucket_num) == Ok::<u32, NameError>(part_num),
    ensures
        ({
            let w0 = WriterView::opening(bucket_num, file_compression);
            let (w1, a1) = w0.on_event(WriterEvent::Listed(names));
            let (w2, a2) = w1.on_event(WriterEvent::Created { written });
            let (w3, a3) = w2.on_event(WriterEvent::Created { written: reference_written });
            &&& w0.bucket_num == bucket_num
            &&& w0.file_compression == file_compression
            &&& w0.sending
            &&& a1 == w0.create_object(part_num)
            &&& a2 == w0.create_reference()
            &&& a3 == WriterActionView::Opened
            &&& w3.phase is Idle
            &&& w3.current_part_num == part_num
            &&& w3.n == written
            &&& w3.bucket_num == bucket_num
            &&& w3.file_compression == file_compression
            &&& w3.files.len() == 0
            &&& w3.sending
        }),
{
}

/// The view of a request of a snapshot's writer has what the request has.
pub proof fn law_snapshot_action_view(action: SnapshotAction)
    ensures
        match (action, action@) {
            (SnapshotAction::OpenRemoteStore, SnapshotActionView::OpenRemoteStore) => true,
            (
                SnapshotAction::DeleteRemoteDir { path },
                SnapshotActionView::DeleteRemoteDir { path: shown_path },
            ) => {
                path@ == shown_path
            },
            (SnapshotAction::OpenLocalStore, SnapshotActionView::OpenLocalStore) => true,
            (
                SnapshotAction::CheckLocalDir { path },
                SnapshotActionView::CheckLocalDir { path: shown_path },
            ) => {
                path@ == shown_path
            },
            (
                SnapshotAction::CreateLocalDir { path },
                SnapshotActionView::CreateLocalDir { path: shown_path },
            ) => {
                path@ == shown_path
            },
            (
                SnapshotAction::OpenLocalDir { path },
                SnapshotActionView::OpenLocalDir { path: shown_path },
            ) => {
                path@ == shown_path
            },
            (SnapshotAction::Ready, SnapshotActionView::Ready) => true,
            (
                SnapshotAction::StartUpload { concurrency },
                SnapshotActionView::StartUpload { concurrency: shown_concurrency },
            ) => {
                concurrency == shown_concurrency
            },
            (
                SnapshotAction::LocateStagingDir { path },
                SnapshotActionView::LocateStagingDir { path: shown_path },
            ) => {
                path@ == shown_path
            },
            (SnapshotAction::NextObject, SnapshotActionView::NextObject) => true,
            (
                SnapshotAction::Writer { bucket_num, action: asked },
                SnapshotActionView::Writer { bucket_num: shown_bucket_num, action: shown_action },
            ) => {
                bucket_num == shown_bucket_num && asked@ == shown_action
            },
            (SnapshotAction::CloseUpload, SnapshotActionView::CloseUpload) => true,
            (SnapshotAction::SyncStagingDir, SnapshotActionView::SyncStagingDir) => true,
            (
                SnapshotAction::CreateManifest { tmp_path, path, header },
                SnapshotActionView::CreateManifest {
                    tmp_path: shown_tmp_path,
                    path: shown_path,
                    header: shown_header,
                },
            ) => {
                tmp_path@ == shown_tmp_path && path@ == shown_path && header@ == shown_header
            },
            (
                SnapshotAction::OpenManifest { path },
                SnapshotActionView::OpenManifest { path: shown_path },
            ) => {
                path@ == shown_path
            },
            (
                SnapshotAction::SerializeManifest(x),
                SnapshotActionView::SerializeManifest(y),
            ) => x@ == y,
            (SnapshotAction::AppendManifest(x), SnapshotActionView::AppendManifest(y)) => x@ == y,
            (
                SnapshotAction::DigestManifest { path },
                SnapshotActionView::DigestManifest { path: shown_path },
            ) => {
                path@ == shown_path
            },
            (SnapshotAction::SealManifest, SnapshotActionView::SealManifest) => true,
            (SnapshotAction::JoinUpload, SnapshotActionView::JoinUpload) => true,
            (
                SnapshotAction::CopyManifest { path },
                SnapshotActionView::CopyManifest { path: shown_path },
            ) => {
                path@ == shown_path
            },
            (SnapshotAction::Complete, SnapshotActionView::Complete) => true,
            (SnapshotAction::Fail(x), SnapshotActionView::Fail(y)) => x == y,
            (SnapshotAction::GiveUp, SnapshotActionView::GiveUp) => true,
            _ => false,
        },
{
}

/// All objects are in one bucket, the first.
pub proof fn law_one_bucket(reference: ObjectRef)
    ensures
        bucket_of(reference) == 1,
{
}

/// The directory of a snapshot is that of its epoch, and its manifest is in it.
pub proof fn law_snapshot_paths(s: SnapshotView)
    ensures
        s.dir() == epoch_dir_name(s.epoch),
        s.manifest() == path_in(epoch_dir_name(s.epoch), "MANIFEST"@),
{
}

/// Writing starts with the uploads, as many at a time as was asked for; then the local directory of
/// the epoch is located, and then the objects come.
pub proof fn law_writing_starts(s: SnapshotView)
    ensures
        s.on_start() == (
            s.at(SnapshotPhase::StartUpload),
            SnapshotActionView::StartUpload { concurrency: s.concurrency },
        ),
        s.phase is StartUpload ==> s.on_event(SnapshotEvent::Done) == (
            s.at(SnapshotPhase::LocateStagingDir),
            SnapshotActionView::LocateStagingDir { path: epoch_dir_name(s.epoch) },
        ),
        s.phase is LocateStagingDir ==> s.on_event(SnapshotEvent::Done) == (
            s.at(SnapshotPhase::NextObject),
            SnapshotActionView::NextObject,
        ),
{
}

/// The steps from the last object to the manifest file: the uploads are told that no more files
/// come, the directory is synced, the manifest file is created with its header, and the directory
/// is synced again.
pub proof fn law_manifest_is_created(s: SnapshotView)
    ensures
        s.phase is CloseUpload ==> s.on_event(SnapshotEvent::Done) == (
            s.at(SnapshotPhase::SyncObjects),
            SnapshotActionView::SyncStagingDir,
        ),
        s.phase is SyncObjects ==> {
            let (next, action) = s.on_event(SnapshotEvent::Done);
            &&& next == s.at(SnapshotPhase::CreateManifest)
            &&& match action {
                SnapshotActionView::CreateManifest { tmp_path, path, header } => {
                    &&& tmp_path == path_in(epoch_dir_name(s.epoch), "MANIFEST.tmp"@)
                    &&& path == path_in(epoch_dir_name(s.epoch), "MANIFEST"@)
                    &&& header.len() == 4
                    &&& read_be(header) == 0x00C0FFEE
                },
                _ => false,
            }
        },
        s.phase is CreateManifest ==> s.on_event(SnapshotEvent::Done) == (
            s.at(SnapshotPhase::SyncNewManifest),
            SnapshotActionView::SyncStagingDir,
        ),
        s.phase is SyncNewManifest ==> s.on_event(SnapshotEvent::Done) == (
            s.at(SnapshotPhase::OpenManifest),
            SnapshotActionView::OpenManifest {
                path: path_in(epoch_dir_name(s.epoch), "MANIFEST"@),
            },
        ),
{
    law_header_reads_back(MANIFEST_FILE_MAGIC);
}

/// The steps of writing the manifest: a manifest that lists all files of the snapshot, one by one,
/// is serialized; the bytes are appended as they are; the digest of the file is computed and
/// appended as it is; and the file is cut to its length.
pub proof fn law_manifest_is_written(s: SnapshotView, bytes: Vec<u8>, digest: [u8; SHA3_BYTES])
    ensures
        s.phase is OpenManifest ==> {
            let (next, action) = s.on_event(SnapshotEvent::Done);
            &&& next == s.at(SnapshotPhase::SerializeManifest)
            &&& match action {
                SnapshotActionView::SerializeManifest(manifest) => {
                    &&& manifest.file_metadata.len() == s.files.len()
                    &&& forall|i: int|
                        0 <= i < s.files.len() ==> #[trigger] manifest.file_metadata[i]
                            == s.files[i]
                    &&& manifest.epoch == s.epoch
                    &&& manifest.snapshot_version == 1
                    &&& manifest.address_length == 32
                },
                _ => false,
            }
        },
        s.phase is SerializeManifest ==> s.on_event(SnapshotEvent::Serialized(bytes)) == (
            s.at(SnapshotPhase::AppendManifest),
            SnapshotActionView::AppendManifest(bytes@),
        ),
        s.phase is AppendManifest ==> s.on_event(SnapshotEvent::Done) == (
            s.at(SnapshotPhase::DigestManifest),
            SnapshotActionView::DigestManifest {
                path: path_in(epoch_dir_name(s.epoch), "MANIFEST"@),
            },
        ),
        s.phase is DigestManifest ==> s.on_event(SnapshotEvent::Digest(digest)) == (
            s.at(SnapshotPhase::AppendDigest),
            SnapshotActionView::AppendManifest(digest@),
        ),
        s.phase is AppendDigest ==> s.on_event(SnapshotEvent::Done) == (
            s.at(SnapshotPhase::SealManifest),
            SnapshotActionView::SealManifest,
        ),
        s.phase is SealManifest ==> s.on_event(SnapshotEvent::Done) == (
            s.at(SnapshotPhase::SyncManifest),
            SnapshotActionView::SyncStagingDir,
        ),
{
    law_manifest_lists_files(s.files, s.epoch);
}

/// The last steps: the uploads are waited for, and if they have ended well the manifest is copied,
/// which completes the snapshot.
pub proof fn law_snapshot_ends(s: SnapshotView)
    ensures
        s.phase is SyncManifest ==> s.on_event(SnapshotEvent::Done) == (
            s.at(SnapshotPhase::JoinUpload),
            SnapshotActionView::JoinUpload,
        ),
        s.phase is JoinUpload ==> s.on_event(SnapshotEvent::Done) == (
            s.at(SnapshotPhase::CopyManifest),
            SnapshotActionView::CopyManifest {
                path: path_in(epoch_dir_name(s.epoch), "MANIFEST"@),
            },
        ),
        s.phase is JoinUpload ==> s.on_event(SnapshotEvent::Failed) == (
            s.at(SnapshotPhase::Closed),
            SnapshotActionView::Fail(SnapshotError::UploadFailed { epoch: s.epoch }),
        ),
        s.phase is CopyManifest ==> s.on_event(SnapshotEvent::Done) == (
            s.at(SnapshotPhase::Closed),
            SnapshotActionView::Complete,
        ),
{
}

/// The event is one that the writer of a snapshot waits for in the phase.
pub open spec fn snapshot_expects(phase: SnapshotPhase, event: SnapshotEvent) -> bool {
    match phase {
        SnapshotPhase::CheckLocalDir => event is Exists,
        SnapshotPhase::Ready => false,
        SnapshotPhase::NextObject => event is Object || event is Unencoded
            || event is NoMoreObjects,
        SnapshotPhase::OpenWriter { .. } => event is Writer,
        SnapshotPhase::OpenInVain => event is Writer,
        SnapshotPhase::WriteObject { .. } => event is Writer,
        SnapshotPhase::FinishWriter { .. } => event is Writer,
        SnapshotPhase::SerializeManifest => event is Serialized,
        SnapshotPhase::DigestManifest => event is Digest,
        SnapshotPhase::JoinUpload => event is Done || event is Failed,
        SnapshotPhase::Closed => false,
        _ => event is Done,
    }
}

/// The writer of a snapshot gives up on an answer that it does not wait for, a failure among them,
/// and nothing is then changed but that it is closed.
pub proof fn law_snapshot_gives_up(s: SnapshotView, event: SnapshotEvent)
    ensures
        !snapshot_expects(s.phase, event) ==> s.on_event(event) == (
            s.at(SnapshotPhase::Closed),
            SnapshotActionView::GiveUp,
        ),
{
}

/// What ends the writer of a bucket ends the snapshot: that it gives up, and that a file has a name
/// that it should not have, which is passed on as it is. What it asks for is passed on as it is
/// too.
pub proof fn law_bucket_is_passed_on(s: SnapshotView, event: WriterEvent)
    requires
        s.phase is OpenWriter || s.phase is WriteObject || s.phase is FinishWriter,
        0 <= s.current() < s.writers.len(),
    ensures
        ({
            let (writer, asked) = s.writers[s.current()].on_event(event);
            let (next, action) = s.on_event(SnapshotEvent::Writer(event));
            match asked {
                WriterActionView::GiveUp => next.phase is Closed && action is GiveUp,
                WriterActionView::BadName(error) => next.phase is Closed && action
                    == SnapshotActionView::Fail(SnapshotError::BadName(error)),
                WriterActionView::Opened => s.phase is OpenWriter ==> {
                    let object = s.phase->OpenWriter_object;
                    &&& next.phase is WriteObject
                    &&& action == (SnapshotActionView::Writer {
                        bucket_num: writer.on_write(object).0.bucket_num,
                        action: writer.on_write(object).1,
                    })
                },
                WriterActionView::Written => s.phase is WriteObject ==> next.phase is NextObject
                    && action is NextObject,
                WriterActionView::Finished(files) => s.phase is FinishWriter ==> {
                    let index = s.current() + 1;
                    &&& next.files == s.files + files
                    &&& if index < s.writers.len() {
                        let (other, done) = s.writers[index].on_done();
                        &&& next.phase == (SnapshotPhase::FinishWriter { index: index as usize })
                        &&& next.writers[index] == other
                        &&& action == (SnapshotActionView::Writer {
                            bucket_num: other.bucket_num,
                            action: done,
                        })
                    } else {
                        next.phase is CloseUpload && action is CloseUpload
                    }
                },
                _ => {
                    &&& next.phase == s.phase
                    &&& action == (SnapshotActionView::Writer {
                        bucket_num: writer.bucket_num,
                        action: asked,
                    })
                },
            }
        }),
{
}

/// An object goes to the bucket that all objects are in. Where that has a writer, the writer gets
/// the object, and what it then asks for is passed on; where it has none, one is opened for it.
pub proof fn law_object_is_written(s: SnapshotView, object: LiveObject, bucket_num: u32)
    ensures
        s.phase is NextObject ==> s.on_event(SnapshotEvent::Object(object)) == s.on_object(
            object,
            1,
        ),
        s.has_writer(bucket_num) ==> {
            let (next, action) = s.on_object(object, bucket_num);
            let index = s.writer_of(bucket_num);
            let (writer, asked) = s.writers[index].on_write(object);
            &&& 0 <= index < s.writers.len()
            &&& s.writers[index].bucket_num == bucket_num
            &&& next.phase == (SnapshotPhase::WriteObject { index: index as usize })
            &&& next.writers == s.writers.update(index, writer)
            &&& next.files == s.files
            &&& action == (SnapshotActionView::Writer { bucket_num, action: asked })
        },
        !s.has_writer(bucket_num) ==> {
            let (next, action) = s.on_object(object, bucket_num);
            &&& next.phase == (SnapshotPhase::OpenWriter { object })
            &&& next.writers == s.writers.push(
                WriterView::opening(bucket_num, s.file_compression),
            )
            &&& next.files == s.files
            &&& action == (SnapshotActionView::Writer {
                bucket_num,
                action: WriterActionView::ListDirectory,
            })
        },
        s.has_writer(bucket_num) <==> exists|i: int|
            0 <= i < s.writers.len() && #[trigger] s.writers[i].bucket_num == bucket_num,
{
}

/// Once there is no further object, the writers complete their files, from the first on; where
/// there is no writer, the uploads are told that no files come.
pub proof fn law_objects_end(s: SnapshotView)
    requires
        s.phase is NextObject,
    ensures
        ({
            let (next, action) = s.on_event(SnapshotEvent::NoMoreObjects);
            if s.writers.len() > 0 {
                let (writer, done) = s.writers[0].on_done();
                &&& next.phase == (SnapshotPhase::FinishWriter { index: 0 })
                &&& next.writers == s.writers.update(0, writer)
                &&& action == (SnapshotActionView::Writer {
                    bucket_num: writer.bucket_num,
                    action: done,
                })
            } else {
                next == s.at(SnapshotPhase::CloseUpload) && action is CloseUpload
            }
        }),
{
}

/// What a writer can be given and told: a blob that can be counted in `usize` together with a file
/// header; a listing that leaves a number for the next object file or has a faulty name; as many
/// bytes of a header as there are; and anything else.
pub proof fn law_inputs(w: WriterView, blob: Blob, event: WriterEvent)
    ensures
        blob.countable() <==> 4 + blob.frame().len() <= usize::MAX,
        match event {
            WriterEvent::Created { written } => w.admits(event) <==> written <= 4,
            WriterEvent::Listed(names) => w.admits(event) <==> {
                ||| exists|i: int|
                    0 <= i < names@.len() && reading(
                        (#[trigger] names@[i])@,
                        w.bucket_num,
                    ) is Faulty
                ||| forall|i: int|
                    0 <= i < names@.len() ==> reading((#[trigger] names@[i])@, w.bucket_num)
                        != NameReading::Part(4294967295)
            },
            _ => w.admits(event),
        },
{
    if let WriterEvent::Listed(names) = event {
        law_highest_part(names@, w.bucket_num);
        law_first_fault(names@, w.bucket_num);
    }
}

/// Letters, digits, underscores, hyphens and dots need no escaping in a path, except dots alone.
pub proof fn law_plain_segments(s: Seq<char>)
    ensures
        is_plain_segment(s) <==> {
            &&& s.len() > 0
            &&& forall|i: int|
                0 <= i < s.len() ==> {
                    ||| 'a' <= #[trigger] s[i] <= 'z'
                    ||| 'A' <= s[i] <= 'Z'
                    ||| '0' <= s[i] <= '9'
                    ||| s[i] == '_'
                    ||| s[i] == '-'
                    ||| s[i] == '.'
                }
            &&& exists|i: int| 0 <= i < s.len() && #[trigger] s[i] != '.'
        },
{
    if s.len() > 0 && !(forall|i: int| 0 <= i < s.len() ==> is_plain_char(#[trigger] s[i])) {
        let i = choose|i: int| 0 <= i < s.len() && !is_plain_char(#[trigger] s[i]);
        assert(!is_plain_char(s[i]));
    }
}

/// The view of an upload's request has what the request has.
pub proof fn law_upload_action_view(action: UploadAction)
    ensures
        match (action, action@) {
            (UploadAction::Copy { path }, UploadActionView::Copy { path: shown_path }) => {
                path@ == shown_path
            },
            (UploadAction::Locate { path }, UploadActionView::Locate { path: shown_path }) => {
                path@ == shown_path
            },
            (UploadAction::Check, UploadActionView::Check) => true,
            (UploadAction::Remove, UploadActionView::Remove) => true,
            (UploadAction::Uploaded, UploadActionView::Uploaded) => true,
            (UploadAction::Retry(x), UploadActionView::Retry(y)) => x == y,
            _ => false,
        },
{
}

/// An attempt in which nothing fails uploads the file: it is copied, located, looked for, removed
/// if it is there, and then it is uploaded.
pub proof fn law_attempt_uploads(upload: UploadView, present: bool)
    ensures
        ({
            let (u1, a1) = upload.on_attempt();
            let (u2, a2) = u1.on_event(UploadEvent::Done);
            let (u3, a3) = u2.on_event(UploadEvent::Done);
            let (u4, a4) = u3.on_event(UploadEvent::Exists(present));
            let (u5, a5) = u4.on_event(UploadEvent::Done);
            &&& a1 == (UploadActionView::Copy { path: upload.path })
            &&& a2 == (UploadActionView::Locate { path: upload.path })
            &&& a3 is Check
            &&& present ==> a4 is Remove && a5 is Uploaded && u5.phase is Uploaded
            &&& !present ==> a4 is Uploaded && u4.phase is Uploaded
        }),
{
}

/// An answer that an attempt does not wait for, a failure among them, has it made again; which step
/// it was is told.
pub proof fn law_upload_retries(upload: UploadView, event: UploadEvent)
    ensures
        ({
            let expected = match upload.phase {
                UploadPhase::Copy => event is Done,
                UploadPhase::Locate => event is Done,
                UploadPhase::Check => event is Exists,
                UploadPhase::Remove => event is Done,
                _ => false,
            };
            !expected ==> upload.on_event(event) == (
                UploadView { phase: UploadPhase::Waiting, ..upload },
                UploadActionView::Retry(upload.phase),
            )
        }),
{
}

} // verus!
