use sui_snapshot::metadata::{FileCompression, FileMetadata, FileType};
use sui_snapshot::upload::{collect_results, Upload, UploadAction, UploadEvent, UploadPhase};

const PATH: &str = "epoch_3/1_2.obj";

fn upload() -> Upload {
    let file = FileMetadata {
        file_type: FileType::Object,
        bucket_num: 1,
        part_num: 2,
        file_compression: FileCompression::Zstd,
        sha3_digest: [0; 32],
    };
    Upload::new(&file, &"epoch_3".to_string())
}

fn copy() -> UploadAction {
    UploadAction::Copy { path: PATH.to_string() }
}

fn locate() -> UploadAction {
    UploadAction::Locate { path: PATH.to_string() }
}

#[test]
fn a_file_is_copied_and_then_removed() {
    let mut upload = upload();
    assert_eq!(upload.attempt(), copy());
    assert_eq!(upload.resume(UploadEvent::Done), locate());
    assert_eq!(upload.resume(UploadEvent::Done), UploadAction::Check);
    assert_eq!(upload.resume(UploadEvent::Exists(true)), UploadAction::Remove);
    assert_eq!(upload.resume(UploadEvent::Done), UploadAction::Uploaded);
}

#[test]
fn a_file_that_is_gone_is_not_removed() {
    let mut upload = upload();
    upload.attempt();
    upload.resume(UploadEvent::Done);
    upload.resume(UploadEvent::Done);
    assert_eq!(upload.resume(UploadEvent::Exists(false)), UploadAction::Uploaded);
}

#[test]
fn every_failure_starts_again_with_the_copy() {
    let mut upload = upload();
    upload.attempt();
    assert_eq!(upload.resume(UploadEvent::Failed), UploadAction::Retry(UploadPhase::Copy));
    assert_eq!(upload.attempt(), copy());
    upload.resume(UploadEvent::Done);
    assert_eq!(upload.resume(UploadEvent::Failed), UploadAction::Retry(UploadPhase::Locate));
    assert_eq!(upload.attempt(), copy());
    upload.resume(UploadEvent::Done);
    upload.resume(UploadEvent::Done);
    assert_eq!(upload.resume(UploadEvent::Failed), UploadAction::Retry(UploadPhase::Check));
    assert_eq!(upload.attempt(), copy());
    upload.resume(UploadEvent::Done);
    upload.resume(UploadEvent::Done);
    upload.resume(UploadEvent::Exists(true));
    assert_eq!(upload.resume(UploadEvent::Failed), UploadAction::Retry(UploadPhase::Remove));
    assert_eq!(upload.attempt(), copy());
}

#[test]
fn results_without_an_error() {
    let results: Vec<Result<(), String>> = vec![Ok(()), Ok(()), Ok(())];
    assert_eq!(collect_results(results), Ok(vec![(), (), ()]));
    let none: Vec<Result<(), String>> = vec![];
    assert_eq!(collect_results(none), Ok(vec![]));
}

#[test]
fn the_first_error_counts() {
    let results: Vec<Result<(), &str>> = vec![Ok(()), Err("a"), Ok(()), Err("b")];
    assert_eq!(collect_results(results), Err("a"));
}
