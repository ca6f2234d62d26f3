use sui_snapshot::encoding::{Blob, Encoding, LiveObject, ObjectRef};
use sui_snapshot::metadata::{FileCompression, FileMetadata, FileType, Manifest};
use sui_snapshot::names::{NameError, NameFault};
use sui_snapshot::object_writer::{WriterAction, WriterEvent};
use sui_snapshot::snapshot_writer::{
    SnapshotAction, SnapshotError, SnapshotEvent, StateSnapshotWriterV1,
};
use sui_snapshot::upload::{Upload, UploadAction, UploadEvent};

fn object_of(seed: u8) -> LiveObject {
    LiveObject {
        reference: ObjectRef { object_id: [seed; 32], version: 1, digest: [seed; 32] },
        blob: Blob { data: vec![seed], encoding: Encoding::Bcs },
    }
}

fn dir() -> String {
    "epoch_7".to_string()
}

fn manifest() -> String {
    "epoch_7/MANIFEST".to_string()
}

/// A writer that is set up.
fn ready() -> StateSnapshotWriterV1 {
    let (mut writer, action) =
        StateSnapshotWriterV1::new(7, true, FileCompression::Uncompressed, 5);
    assert_eq!(action, SnapshotAction::OpenRemoteStore);
    assert!(!writer.is_ready());
    assert_eq!(
        writer.resume(SnapshotEvent::Done),
        SnapshotAction::DeleteRemoteDir { path: dir() }
    );
    assert_eq!(writer.resume(SnapshotEvent::Done), SnapshotAction::OpenLocalStore);
    assert_eq!(
        writer.resume(SnapshotEvent::Done),
        SnapshotAction::CheckLocalDir { path: dir() }
    );
    assert_eq!(
        writer.resume(SnapshotEvent::Exists(false)),
        SnapshotAction::CreateLocalDir { path: dir() }
    );
    assert_eq!(
        writer.resume(SnapshotEvent::Done),
        SnapshotAction::OpenLocalDir { path: dir() }
    );
    assert_eq!(writer.resume(SnapshotEvent::Done), SnapshotAction::Ready);
    assert!(writer.is_ready());
    writer
}

/// A writer that waits for the first object.
fn started() -> StateSnapshotWriterV1 {
    let mut writer = ready();
    assert_eq!(writer.write(), SnapshotAction::StartUpload { concurrency: 5 });
    assert_eq!(
        writer.resume(SnapshotEvent::Done),
        SnapshotAction::LocateStagingDir { path: dir() }
    );
    assert_eq!(writer.resume(SnapshotEvent::Done), SnapshotAction::NextObject);
    writer
}

/// Carries out what the writer of a bucket asks for, and gives what comes after.
fn drive(
    writer: &mut StateSnapshotWriterV1,
    action: SnapshotAction,
    sent: &mut Vec<FileMetadata>,
) -> SnapshotAction {
    let mut action = action;
    loop {
        let event = match action {
            SnapshotAction::Writer { bucket_num, action } => {
                assert_eq!(bucket_num, 1);
                match action {
                    WriterAction::ListDirectory => WriterEvent::Listed(vec![]),
                    WriterAction::CreateObject { .. } | WriterAction::CreateReference { .. } => {
                        WriterEvent::Created { written: 4 }
                    }
                    WriterAction::AppendObject(_) | WriterAction::AppendReference(_) => {
                        WriterEvent::Done
                    }
                    WriterAction::SealObject { .. } => WriterEvent::Sealed([1; 32]),
                    WriterAction::SealReference { .. } => WriterEvent::Sealed([2; 32]),
                    WriterAction::Send(file) => {
                        sent.push(file);
                        WriterEvent::Done
                    }
                    other => panic!("{other:?}"),
                }
            }
            next => return next,
        };
        action = writer.resume(SnapshotEvent::Writer(event));
    }
}

/// Has the writer write the manifest of `files`, up to the end of the uploads.
fn write_manifest(writer: &mut StateSnapshotWriterV1, files: Vec<FileMetadata>) {
    assert_eq!(writer.resume(SnapshotEvent::Done), SnapshotAction::SyncStagingDir);
    assert_eq!(
        writer.resume(SnapshotEvent::Done),
        SnapshotAction::CreateManifest {
            tmp_path: "epoch_7/MANIFEST.tmp".to_string(),
            path: manifest(),
            header: vec![0x00, 0xC0, 0xFF, 0xEE],
        }
    );
    assert_eq!(writer.resume(SnapshotEvent::Done), SnapshotAction::SyncStagingDir);
    assert_eq!(
        writer.resume(SnapshotEvent::Done),
        SnapshotAction::OpenManifest { path: manifest() }
    );
    assert_eq!(
        writer.resume(SnapshotEvent::Done),
        SnapshotAction::SerializeManifest(Manifest::new(files, 7))
    );
    assert_eq!(
        writer.resume(SnapshotEvent::Serialized(vec![1, 2, 3])),
        SnapshotAction::AppendManifest(vec![1, 2, 3])
    );
    assert_eq!(
        writer.resume(SnapshotEvent::Done),
        SnapshotAction::DigestManifest { path: manifest() }
    );
    assert_eq!(
        writer.resume(SnapshotEvent::Digest([9; 32])),
        SnapshotAction::AppendManifest(vec![9; 32])
    );
    assert_eq!(writer.resume(SnapshotEvent::Done), SnapshotAction::SealManifest);
    assert_eq!(writer.resume(SnapshotEvent::Done), SnapshotAction::SyncStagingDir);
    assert_eq!(writer.resume(SnapshotEvent::Done), SnapshotAction::JoinUpload);
}

#[test]
fn a_snapshot_of_two_objects() {
    let mut writer = started();
    let mut sent: Vec<FileMetadata> = vec![];
    for seed in [3, 4] {
        let action = writer.resume(SnapshotEvent::Object(object_of(seed)));
        assert_eq!(drive(&mut writer, action, &mut sent), SnapshotAction::NextObject);
    }
    assert!(sent.is_empty());
    let action = writer.resume(SnapshotEvent::NoMoreObjects);
    assert_eq!(drive(&mut writer, action, &mut sent), SnapshotAction::CloseUpload);
    let object_file = FileMetadata {
        file_type: FileType::Object,
        bucket_num: 1,
        part_num: 1,
        file_compression: FileCompression::Uncompressed,
        sha3_digest: [1; 32],
    };
    let reference_file = FileMetadata {
        file_type: FileType::Reference,
        bucket_num: 1,
        part_num: 0,
        file_compression: FileCompression::Uncompressed,
        sha3_digest: [2; 32],
    };
    assert_eq!(sent, vec![object_file, reference_file]);
    write_manifest(&mut writer, sent);
    assert_eq!(
        writer.resume(SnapshotEvent::Done),
        SnapshotAction::CopyManifest { path: manifest() }
    );
    assert_eq!(writer.resume(SnapshotEvent::Done), SnapshotAction::Complete);
}

#[test]
fn listed_files_are_uploaded_before_the_manifest() {
    let mut writer = started();
    let mut sent: Vec<FileMetadata> = vec![];
    let action = writer.resume(SnapshotEvent::Object(object_of(3)));
    drive(&mut writer, action, &mut sent);
    let action = writer.resume(SnapshotEvent::NoMoreObjects);
    assert_eq!(drive(&mut writer, action, &mut sent), SnapshotAction::CloseUpload);
    let mut local: Vec<String> = sent.iter().map(|file| file.file_path(&dir())).collect();
    let mut remote: Vec<String> = vec![];
    for file in &sent {
        let mut upload = Upload::new(file, &writer.epoch_dir());
        let mut action = upload.attempt();
        let mut path = String::new();
        while action != UploadAction::Uploaded {
            let event = match action {
                UploadAction::Copy { path } => {
                    remote.push(path);
                    UploadEvent::Done
                }
                UploadAction::Locate { path: at } => {
                    path = at;
                    UploadEvent::Done
                }
                UploadAction::Check => UploadEvent::Exists(local.contains(&path)),
                UploadAction::Remove => {
                    local.retain(|other| *other != path);
                    UploadEvent::Done
                }
                other => panic!("{other:?}"),
            };
            action = upload.resume(event);
        }
    }
    assert!(local.is_empty());
    assert_eq!(remote, ["epoch_7/1_1.obj", "epoch_7/REFERENCE-1"]);
    write_manifest(&mut writer, sent);
    assert_eq!(
        writer.resume(SnapshotEvent::Done),
        SnapshotAction::CopyManifest { path: manifest() }
    );
}

#[test]
fn the_manifest_file_is_replaced() {
    let mut files: Vec<Vec<u8>> = vec![];
    for before in [vec![], vec![9u8; 100]] {
        let mut writer = started();
        let mut file = before;
        let mut action = writer.resume(SnapshotEvent::NoMoreObjects);
        while action != SnapshotAction::JoinUpload {
            let event = match action {
                SnapshotAction::CreateManifest { header, .. } => {
                    file = header;
                    SnapshotEvent::Done
                }
                SnapshotAction::AppendManifest(bytes) => {
                    file.extend(bytes);
                    SnapshotEvent::Done
                }
                SnapshotAction::SerializeManifest(_) => SnapshotEvent::Serialized(vec![1, 2]),
                SnapshotAction::DigestManifest { .. } => {
                    SnapshotEvent::Digest([file.len() as u8; 32])
                }
                _ => SnapshotEvent::Done,
            };
            action = writer.resume(event);
        }
        files.push(file);
    }
    let mut expected = vec![0x00, 0xC0, 0xFF, 0xEE, 1, 2];
    expected.extend([6u8; 32]);
    assert_eq!(files[1][4..files[1].len() - 32], [1, 2]);
    assert_eq!(files, vec![expected.clone(), expected]);
}

#[test]
fn the_writer_is_opened_once() {
    let mut writer = started();
    let mut sent: Vec<FileMetadata> = vec![];
    let action = writer.resume(SnapshotEvent::Object(object_of(3)));
    assert_eq!(
        action,
        SnapshotAction::Writer { bucket_num: 1, action: WriterAction::ListDirectory }
    );
    drive(&mut writer, action, &mut sent);
    let action = writer.resume(SnapshotEvent::Object(object_of(4)));
    assert_eq!(
        action,
        SnapshotAction::Writer { bucket_num: 1, action: WriterAction::AppendObject(vec![1, 1, 4]) }
    );
}

#[test]
fn each_bucket_has_a_writer() {
    let mut writer = started();
    for bucket_num in [8, 9] {
        let action = writer.write_live_object(object_of(3), bucket_num);
        assert_eq!(
            action,
            SnapshotAction::Writer { bucket_num, action: WriterAction::ListDirectory }
        );
        writer.resume(SnapshotEvent::Writer(WriterEvent::Listed(vec![])));
        writer.resume(SnapshotEvent::Writer(WriterEvent::Created { written: 4 }));
        writer.resume(SnapshotEvent::Writer(WriterEvent::Created { written: 4 }));
        writer.resume(SnapshotEvent::Writer(WriterEvent::Done));
        assert_eq!(
            writer.resume(SnapshotEvent::Writer(WriterEvent::Done)),
            SnapshotAction::NextObject
        );
    }
    let action = writer.write_live_object(object_of(4), 8);
    assert!(matches!(
        action,
        SnapshotAction::Writer { bucket_num: 8, action: WriterAction::AppendObject(_) }
    ));
    writer.resume(SnapshotEvent::Writer(WriterEvent::Done));
    writer.resume(SnapshotEvent::Writer(WriterEvent::Done));
    let mut action = writer.resume(SnapshotEvent::NoMoreObjects);
    for bucket in [8, 9] {
        match action {
            SnapshotAction::Writer { bucket_num, action: WriterAction::SealObject { name } } => {
                assert_eq!(bucket_num, bucket);
                assert_eq!(name, format!("{bucket}_1.obj"));
            }
            other => panic!("{other:?}"),
        }
        writer.resume(SnapshotEvent::Writer(WriterEvent::Sealed([1; 32])));
        writer.resume(SnapshotEvent::Writer(WriterEvent::Done));
        writer.resume(SnapshotEvent::Writer(WriterEvent::Sealed([2; 32])));
        action = writer.resume(SnapshotEvent::Writer(WriterEvent::Done));
    }
    assert_eq!(action, SnapshotAction::CloseUpload);
    for _ in 0..4 {
        writer.resume(SnapshotEvent::Done);
    }
    match writer.resume(SnapshotEvent::Done) {
        SnapshotAction::SerializeManifest(Manifest::V1(manifest)) => {
            let buckets: Vec<u32> = manifest.file_metadata.iter().map(|f| f.bucket_num).collect();
            assert_eq!(buckets, [8, 8, 9, 9]);
            assert_eq!(manifest.epoch, 7);
        }
        other => panic!("{other:?}"),
    }
}

#[test]
fn a_snapshot_without_objects() {
    let mut writer = started();
    assert_eq!(writer.resume(SnapshotEvent::NoMoreObjects), SnapshotAction::CloseUpload);
    write_manifest(&mut writer, vec![]);
    assert_eq!(
        writer.resume(SnapshotEvent::Done),
        SnapshotAction::CopyManifest { path: manifest() }
    );
    assert_eq!(writer.resume(SnapshotEvent::Done), SnapshotAction::Complete);
    assert_eq!(writer.resume(SnapshotEvent::Done), SnapshotAction::GiveUp);
}

#[test]
fn no_manifest_after_a_failed_upload() {
    let mut writer = started();
    writer.resume(SnapshotEvent::NoMoreObjects);
    write_manifest(&mut writer, vec![]);
    assert_eq!(
        writer.resume(SnapshotEvent::Failed),
        SnapshotAction::Fail(SnapshotError::UploadFailed { epoch: 7 })
    );
    assert_eq!(writer.resume(SnapshotEvent::Done), SnapshotAction::GiveUp);
}

#[test]
fn no_local_directory() {
    let (mut writer, _) = StateSnapshotWriterV1::new(7, false, FileCompression::Zstd, 5);
    assert_eq!(
        writer.resume(SnapshotEvent::Done),
        SnapshotAction::DeleteRemoteDir { path: dir() }
    );
    assert_eq!(writer.resume(SnapshotEvent::Done), SnapshotAction::OpenLocalStore);
    assert_eq!(
        writer.resume(SnapshotEvent::Done),
        SnapshotAction::Fail(SnapshotError::NoLocalDirectory)
    );
}

#[test]
fn local_directory_is_there_already() {
    let (mut writer, _) = StateSnapshotWriterV1::new(7, true, FileCompression::Zstd, 5);
    for _ in 0..3 {
        writer.resume(SnapshotEvent::Done);
    }
    assert_eq!(
        writer.resume(SnapshotEvent::Exists(true)),
        SnapshotAction::Fail(SnapshotError::LocalEpochDirExists)
    );
    assert!(!writer.is_ready());
}

#[test]
fn a_bad_name_ends_the_snapshot() {
    let mut writer = started();
    writer.resume(SnapshotEvent::Object(object_of(3)));
    let listed = WriterEvent::Listed(vec!["1_x.obj".to_string()]);
    assert_eq!(
        writer.resume(SnapshotEvent::Writer(listed)),
        SnapshotAction::Fail(SnapshotError::BadName(NameError {
            file_name: "1_x.obj".to_string(),
            fault: NameFault::PartNumber,
        }))
    );
    assert_eq!(writer.resume(SnapshotEvent::Done), SnapshotAction::GiveUp);
}

#[test]
fn a_failed_write_ends_the_snapshot() {
    let mut writer = started();
    writer.resume(SnapshotEvent::Object(object_of(3)));
    assert_eq!(
        writer.resume(SnapshotEvent::Writer(WriterEvent::Failed)),
        SnapshotAction::GiveUp
    );
    assert_eq!(writer.resume(SnapshotEvent::NoMoreObjects), SnapshotAction::GiveUp);
}

#[test]
fn a_first_object_that_cannot_be_encoded() {
    let mut writer = started();
    let reference = object_of(3).reference;
    assert_eq!(
        writer.resume(SnapshotEvent::Unencoded(reference)),
        SnapshotAction::Writer { bucket_num: 1, action: WriterAction::ListDirectory }
    );
    assert!(matches!(
        writer.resume(SnapshotEvent::Writer(WriterEvent::Listed(vec![]))),
        SnapshotAction::Writer { action: WriterAction::CreateObject { .. }, .. }
    ));
    assert!(matches!(
        writer.resume(SnapshotEvent::Writer(WriterEvent::Created { written: 4 })),
        SnapshotAction::Writer { action: WriterAction::CreateReference { .. }, .. }
    ));
    assert_eq!(
        writer.resume(SnapshotEvent::Writer(WriterEvent::Created { written: 4 })),
        SnapshotAction::GiveUp
    );
    assert_eq!(writer.resume(SnapshotEvent::Done), SnapshotAction::GiveUp);
}

#[test]
fn a_later_object_that_cannot_be_encoded() {
    let mut writer = started();
    let mut sent: Vec<FileMetadata> = vec![];
    let action = writer.resume(SnapshotEvent::Object(object_of(3)));
    assert_eq!(drive(&mut writer, action, &mut sent), SnapshotAction::NextObject);
    let reference = object_of(4).reference;
    assert_eq!(writer.resume(SnapshotEvent::Unencoded(reference)), SnapshotAction::GiveUp);
    assert!(sent.is_empty());
}

#[test]
fn an_object_of_another_bucket_that_cannot_be_encoded() {
    let mut writer = started();
    assert_eq!(
        writer.refuse_live_object(9),
        SnapshotAction::Writer { bucket_num: 9, action: WriterAction::ListDirectory }
    );
    assert_eq!(
        writer.resume(SnapshotEvent::Writer(WriterEvent::Failed)),
        SnapshotAction::GiveUp
    );
}

#[test]
fn a_failed_setup() {
    let (mut writer, _) = StateSnapshotWriterV1::new(7, true, FileCompression::Zstd, 5);
    assert_eq!(writer.resume(SnapshotEvent::Failed), SnapshotAction::GiveUp);
    assert_eq!(writer.resume(SnapshotEvent::Done), SnapshotAction::GiveUp);
}

#[test]
fn one_bucket_for_all_objects() {
    assert_eq!(StateSnapshotWriterV1::bucket_func(&object_of(1)), 1);
    assert_eq!(StateSnapshotWriterV1::bucket_func(&object_of(200)), 1);
}

#[test]
fn directory_of_the_epoch() {
    assert_eq!(ready().epoch_dir(), "epoch_7");
}
