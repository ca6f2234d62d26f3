use std::collections::BTreeMap;
use sui_snapshot::encoding::{Blob, Encoding, LiveObject, ObjectRef};
use sui_snapshot::metadata::{FileCompression, FileMetadata, FileType};
use sui_snapshot::names::{NameError, NameFault};
use sui_snapshot::object_writer::{LiveObjectSetWriterV1, WriterAction, WriterEvent};

/// The length of a blob that fills an object file to the limit.
const FULL: usize = 134217728 - 4 - 5;

fn reference(seed: u8) -> ObjectRef {
    ObjectRef { object_id: [seed; 32], version: seed as u64, digest: [seed; 32] }
}

fn object_of(seed: u8, len: usize) -> LiveObject {
    LiveObject {
        reference: reference(seed),
        blob: Blob { data: vec![seed; len], encoding: Encoding::Bcs },
    }
}

/// A directory in memory.
struct Directory {
    files: BTreeMap<String, Vec<u8>>,
    object: String,
    reference: String,
    sent: Vec<FileMetadata>,
    log: Vec<&'static str>,
}

impl Directory {
    fn new() -> Self {
        Directory {
            files: BTreeMap::new(),
            object: String::new(),
            reference: String::new(),
            sent: vec![],
            log: vec![],
        }
    }

    fn create(&mut self, tmp_name: String, name: &str, header: Vec<u8>) -> WriterEvent {
        assert_eq!(tmp_name, format!("{name}.tmp"));
        let written = header.len();
        assert!(self.files.insert(name.to_string(), header).is_none());
        WriterEvent::Created { written }
    }

    fn carry_out(&mut self, action: WriterAction) -> Result<WriterEvent, WriterAction> {
        let event = match action {
            WriterAction::ListDirectory => {
                self.log.push("list");
                WriterEvent::Listed(self.files.keys().cloned().collect())
            }
            WriterAction::CreateObject { tmp_name, name, header } => {
                self.log.push("create object");
                self.object = name.clone();
                self.create(tmp_name, &name, header)
            }
            WriterAction::CreateReference { tmp_name, name, header } => {
                self.log.push("create reference");
                self.reference = name.clone();
                self.create(tmp_name, &name, header)
            }
            WriterAction::AppendObject(bytes) => {
                self.log.push("append object");
                self.files.get_mut(&self.object).unwrap().extend(bytes);
                WriterEvent::Done
            }
            WriterAction::AppendReference(bytes) => {
                self.log.push("append reference");
                self.files.get_mut(&self.reference).unwrap().extend(bytes);
                WriterEvent::Done
            }
            WriterAction::SealObject { name } => {
                self.log.push("seal object");
                assert_eq!(name, self.object);
                WriterEvent::Sealed([self.sent.len() as u8 + 1; 32])
            }
            WriterAction::SealReference { name } => {
                self.log.push("seal reference");
                assert_eq!(name, self.reference);
                WriterEvent::Sealed([self.sent.len() as u8 + 1; 32])
            }
            WriterAction::Send(file) => {
                self.log.push("send");
                self.sent.push(file);
                WriterEvent::Done
            }
            end => return Err(end),
        };
        Ok(event)
    }

    /// Carries out what the writer asks for until it asks for nothing.
    fn drive(&mut self, writer: &mut LiveObjectSetWriterV1, action: WriterAction) -> WriterAction {
        let mut action = action;
        loop {
            match self.carry_out(action) {
                Ok(event) => action = writer.resume(event),
                Err(end) => return end,
            }
        }
    }

    fn open(&mut self, bucket_num: u32) -> LiveObjectSetWriterV1 {
        let (mut writer, action) =
            LiveObjectSetWriterV1::new(bucket_num, FileCompression::Uncompressed);
        assert_eq!(self.drive(&mut writer, action), WriterAction::Opened);
        writer
    }

    fn write(&mut self, writer: &mut LiveObjectSetWriterV1, object: LiveObject) {
        assert!(writer.is_idle());
        let action = writer.write(object);
        assert_eq!(self.drive(writer, action), WriterAction::Written);
    }

    fn done(&mut self, writer: &mut LiveObjectSetWriterV1) -> Vec<FileMetadata> {
        let action = writer.done();
        match self.drive(writer, action) {
            WriterAction::Finished(files) => files,
            other => panic!("{other:?}"),
        }
    }
}

fn metadata(file_type: FileType, part_num: u32, digest: u8) -> FileMetadata {
    FileMetadata {
        file_type,
        bucket_num: 1,
        part_num,
        file_compression: FileCompression::Uncompressed,
        sha3_digest: [digest; 32],
    }
}

#[test]
fn opening_creates_two_files() {
    let mut directory = Directory::new();
    let writer = directory.open(1);
    assert_eq!(writer.bucket_num(), 1);
    assert!(writer.is_idle());
    assert_eq!(directory.log, ["list", "create object", "create reference"]);
    assert_eq!(directory.files["1_1.obj"], vec![0x00, 0xB7, 0xEC, 0x75]);
    assert_eq!(directory.files["REFERENCE-1"], vec![0xDE, 0xAD, 0xBE, 0xEF]);
}

#[test]
fn opening_asks_for_named_files() {
    let (mut writer, action) = LiveObjectSetWriterV1::new(3, FileCompression::Zstd);
    assert_eq!(action, WriterAction::ListDirectory);
    assert!(!writer.is_idle());
    let action = writer.resume(WriterEvent::Listed(vec!["3_4.obj".to_string()]));
    assert_eq!(
        action,
        WriterAction::CreateObject {
            tmp_name: "3_5.obj.tmp".to_string(),
            name: "3_5.obj".to_string(),
            header: vec![0x00, 0xB7, 0xEC, 0x75],
        }
    );
    let action = writer.resume(WriterEvent::Created { written: 4 });
    assert_eq!(
        action,
        WriterAction::CreateReference {
            tmp_name: "REFERENCE-3.tmp".to_string(),
            name: "REFERENCE-3".to_string(),
            header: vec![0xDE, 0xAD, 0xBE, 0xEF],
        }
    );
    assert_eq!(writer.resume(WriterEvent::Created { written: 4 }), WriterAction::Opened);
}

#[test]
fn objects_are_stored_in_order() {
    let mut directory = Directory::new();
    let mut writer = directory.open(1);
    directory.write(&mut writer, object_of(5, 2));
    directory.write(&mut writer, object_of(6, 1));
    let files = directory.done(&mut writer);
    assert_eq!(
        directory.files["1_1.obj"],
        vec![0x00, 0xB7, 0xEC, 0x75, 2, 1, 5, 5, 1, 1, 6]
    );
    let mut references = vec![0xDE, 0xAD, 0xBE, 0xEF];
    references.extend(reference(5).to_row());
    references.extend(reference(6).to_row());
    assert_eq!(directory.files["REFERENCE-1"], references);
    let expected =
        vec![metadata(FileType::Object, 1, 1), metadata(FileType::Reference, 0, 2)];
    assert_eq!(files, expected);
    assert_eq!(directory.sent, expected);
    assert_eq!(
        directory.log[3..],
        [
            "append object",
            "append reference",
            "append object",
            "append reference",
            "seal object",
            "send",
            "seal reference",
            "send"
        ]
    );
}

#[test]
fn a_bucket_without_objects_has_two_files() {
    let mut directory = Directory::new();
    let mut writer = directory.open(1);
    let files = directory.done(&mut writer);
    assert_eq!(files.len(), 2);
    assert_eq!(directory.files["1_1.obj"].len(), 4);
    assert_eq!(directory.files["REFERENCE-1"].len(), 4);
    assert_eq!(directory.sent, files);
}

#[test]
fn a_full_file_is_cut() {
    let mut directory = Directory::new();
    let mut writer = directory.open(1);
    directory.write(&mut writer, object_of(5, FULL));
    assert_eq!(directory.files["1_1.obj"].len(), 134217728);
    assert!(directory.sent.is_empty());
    directory.log.clear();
    directory.write(&mut writer, object_of(6, 0));
    assert_eq!(
        directory.log,
        [
            "seal object",
            "send",
            "append reference",
            "list",
            "create object",
            "append object",
            "append reference"
        ]
    );
    let files = directory.done(&mut writer);
    assert_eq!(directory.files["1_2.obj"], vec![0x00, 0xB7, 0xEC, 0x75, 0, 1]);
    let mut references = vec![0xDE, 0xAD, 0xBE, 0xEF];
    references.extend(reference(5).to_row());
    references.extend([0u8; 72]);
    references.extend(reference(6).to_row());
    assert_eq!(directory.files["REFERENCE-1"], references);
    let expected = vec![
        metadata(FileType::Object, 1, 1),
        metadata(FileType::Object, 2, 2),
        metadata(FileType::Reference, 0, 3),
    ];
    assert_eq!(files, expected);
    assert_eq!(directory.sent, expected);
}

#[test]
fn an_oversize_object_is_alone_in_its_file() {
    let mut directory = Directory::new();
    let mut writer = directory.open(1);
    directory.write(&mut writer, object_of(5, 1));
    directory.write(&mut writer, object_of(6, FULL + 1));
    directory.write(&mut writer, object_of(7, 1));
    let files = directory.done(&mut writer);
    assert_eq!(files.len(), 4);
    assert_eq!(directory.files["1_1.obj"].len(), 4 + 3);
    assert_eq!(directory.files["1_2.obj"].len(), 134217729);
    assert_eq!(directory.files["1_3.obj"].len(), 4 + 3);
}

#[test]
fn an_oversize_first_object_leaves_an_empty_file() {
    let mut directory = Directory::new();
    let mut writer = directory.open(1);
    directory.write(&mut writer, object_of(6, FULL + 1));
    assert_eq!(directory.files["1_1.obj"].len(), 4);
    assert_eq!(directory.files["1_2.obj"].len(), 134217729);
}

#[test]
fn parts_are_numbered_in_turn() {
    let mut directory = Directory::new();
    let mut writer = directory.open(2);
    for seed in [1, 2] {
        directory.write(&mut writer, object_of(seed, FULL));
    }
    directory.write(&mut writer, object_of(3, 0));
    let numbers: Vec<u32> = directory.done(&mut writer).iter().map(|file| file.part_num).collect();
    assert_eq!(numbers, [1, 2, 3, 0]);
}

#[test]
fn a_listing_with_the_last_file_gives_a_new_number() {
    let mut directory = Directory::new();
    let mut writer = directory.open(1);
    directory.write(&mut writer, object_of(5, FULL));
    directory.write(&mut writer, object_of(6, FULL));
    directory.files.remove("1_1.obj");
    directory.write(&mut writer, object_of(7, 0));
    assert_eq!(directory.object, "1_3.obj");
}

#[test]
fn a_listing_that_lost_a_file_repeats_its_number() {
    let mut directory = Directory::new();
    let mut writer = directory.open(1);
    directory.write(&mut writer, object_of(5, FULL));
    let action = writer.write(object_of(6, 0));
    assert_eq!(action, WriterAction::SealObject { name: "1_1.obj".to_string() });
    assert!(matches!(writer.resume(WriterEvent::Sealed([0; 32])), WriterAction::Send(_)));
    assert!(matches!(writer.resume(WriterEvent::Done), WriterAction::AppendReference(_)));
    assert_eq!(writer.resume(WriterEvent::Done), WriterAction::ListDirectory);
    match writer.resume(WriterEvent::Listed(vec!["REFERENCE-1".to_string()])) {
        WriterAction::CreateObject { name, .. } => assert_eq!(name, "1_1.obj"),
        other => panic!("{other:?}"),
    }
}

#[test]
fn a_short_header_counts_as_written() {
    let (mut writer, _) = LiveObjectSetWriterV1::new(1, FileCompression::Uncompressed);
    writer.resume(WriterEvent::Listed(vec![]));
    writer.resume(WriterEvent::Created { written: 3 });
    assert_eq!(writer.resume(WriterEvent::Created { written: 4 }), WriterAction::Opened);
    let action = writer.write(object_of(5, FULL + 1));
    assert!(matches!(action, WriterAction::AppendObject(_)));
}

#[test]
fn bad_names_end_the_opening() {
    for (name, fault) in [
        ("x.obj", NameFault::NoSeparator),
        ("x_1.obj", NameFault::BucketNumber),
        ("1_x.obj", NameFault::PartNumber),
    ] {
        let (mut writer, _) = LiveObjectSetWriterV1::new(1, FileCompression::Uncompressed);
        let action = writer.resume(WriterEvent::Listed(vec![name.to_string()]));
        assert_eq!(
            action,
            WriterAction::BadName(NameError { file_name: name.to_string(), fault })
        );
        assert!(!writer.is_idle());
    }
}

#[test]
fn failures_end_the_opening() {
    let (mut writer, _) = LiveObjectSetWriterV1::new(1, FileCompression::Uncompressed);
    assert_eq!(writer.resume(WriterEvent::Failed), WriterAction::GiveUp);
    assert!(!writer.is_idle());
    assert_eq!(writer.resume(WriterEvent::Done), WriterAction::GiveUp);
}

#[test]
fn a_failed_write_leaves_the_writer_open() {
    let mut directory = Directory::new();
    let mut writer = directory.open(1);
    writer.write(object_of(5, 1));
    assert_eq!(writer.resume(WriterEvent::Failed), WriterAction::GiveUp);
    assert!(writer.is_idle());
}

#[test]
fn a_failed_completion_closes_the_writer() {
    let mut directory = Directory::new();
    let mut writer = directory.open(1);
    writer.done();
    assert_eq!(writer.resume(WriterEvent::Failed), WriterAction::GiveUp);
    assert!(!writer.is_idle());
}

#[test]
fn an_event_that_was_not_asked_for_is_a_failure() {
    let (mut writer, _) = LiveObjectSetWriterV1::new(1, FileCompression::Uncompressed);
    assert_eq!(writer.resume(WriterEvent::Done), WriterAction::GiveUp);
}
