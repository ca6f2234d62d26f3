use sui_snapshot::metadata::{
    manifest_path, manifest_temporary_path, FileCompression, FileMetadata, FileType, Manifest,
    ManifestV1,
};

fn file(file_type: FileType, bucket_num: u32, part_num: u32) -> FileMetadata {
    FileMetadata {
        file_type,
        bucket_num,
        part_num,
        file_compression: FileCompression::Zstd,
        sha3_digest: [3; 32],
    }
}

#[test]
fn names_of_files() {
    assert_eq!(file(FileType::Object, 1, 2).file_name(), "1_2.obj");
    assert_eq!(file(FileType::Reference, 1, 0).file_name(), "REFERENCE-1");
}

#[test]
fn paths_of_files() {
    let dir = "epoch_5".to_string();
    assert_eq!(file(FileType::Object, 1, 2).file_path(&dir), "epoch_5/1_2.obj");
    assert_eq!(file(FileType::Reference, 7, 0).file_path(&dir), "epoch_5/REFERENCE-7");
}

#[test]
fn paths_of_the_manifest() {
    let dir = "epoch_5".to_string();
    assert_eq!(manifest_path(&dir), "epoch_5/MANIFEST");
    assert_eq!(manifest_temporary_path(&dir), "epoch_5/MANIFEST.tmp");
}

#[test]
fn manifest_lists_files() {
    let files = vec![file(FileType::Object, 1, 1), file(FileType::Reference, 1, 0)];
    let Manifest::V1(manifest) = Manifest::new(files.clone(), 9);
    let expected =
        ManifestV1 { snapshot_version: 1, address_length: 32, file_metadata: files, epoch: 9 };
    assert_eq!(manifest, expected);
}
