//! The writer of one bucket of the live object set.
use crate::encoding::{
    file_header, header, part_delimiter, reference_delimiter, LiveObject, FILE_MAX_BYTES,
    MAGIC_BYTES, OBJECT_FILE_MAGIC, REFERENCE_FILE_MAGIC, SHA3_BYTES,
};
use crate::metadata::{FileCompression, FileMetadata, FileType};
use crate::names::{
    next_object_file_number, next_part, next_part_exists, object_file, object_file_name,
    reference_file, reference_file_name, temporary, temporary_name, NameError,
};
use vstd::prelude::*;

verus! {

/// What the writer waits for.
#[derive(Debug)]
pub enum WriterPhase {
    /// For the names of the files in the directory, to number the first object file.
    Opening,
    /// For the first object file.
    OpeningObject { part_num: u32 },
    /// For the reference file.
    OpeningReference,
    /// For an object to write, or for the end.
    Idle,
    /// For the completion of the object file that has no room for `object`.
    CutSeal { object: LiveObject },
    /// For the metadata of that file to be sent.
    CutSend { object: LiveObject },
    /// For the delimiter in the reference file.
    CutDelimit { object: LiveObject },
    /// For the names of the files in the directory, to number the next object file.
    CutList { object: LiveObject },
    /// For the next object file.
    CutCreate { object: LiveObject, part_num: u32 },
    /// For the blob of `object` in the object file.
    AppendObject { object: LiveObject },
    /// For the reference of `object` in the reference file.
    AppendReference { object: LiveObject },
    /// For the completion of the last object file.
    DoneSeal,
    /// For the metadata of that file to be sent.
    DoneSend,
    /// For the completion of the reference file.
    DoneSealReference,
    /// For the metadata of that file to be sent.
    DoneSendReference,
    /// For nothing.
    Closed,
}

/// How what the writer asked for came out.
#[derive(Debug, PartialEq, Eq)]
pub enum WriterEvent {
    /// It was done.
    Done,
    /// The file was created, and `written` bytes of its header were written.
    Created { written: usize },
    /// The names of the files in the directory.
    Listed(Vec<String>),
    /// The file is complete; this is the digest of it as it is stored.
    Sealed([u8; SHA3_BYTES]),
    /// It could not be done.
    Failed,
}

/// What the writer asks for.
#[derive(Debug, PartialEq, Eq)]
pub enum WriterAction {
    /// List the names of the files in the directory.
    ListDirectory,
    /// Create the file `tmp_name` with the bytes `header`, rename it to `name` and open it as the
    /// object file.
    CreateObject { tmp_name: String, name: String, header: Vec<u8> },
    /// Create the file `tmp_name` with the bytes `header`, rename it to `name` and open it as the
    /// reference file.
    CreateReference { tmp_name: String, name: String, header: Vec<u8> },
    /// Append these bytes to the object file.
    AppendObject(Vec<u8>),
    /// Append these bytes to the reference file.
    AppendReference(Vec<u8>),
    /// Flush the object file, cut it to its length, compress it and compute its digest.
    SealObject { name: String },
    /// Flush the reference file, cut it to its length, compress it and compute its digest.
    SealReference { name: String },
    /// Hand this file on to be uploaded.
    Send(FileMetadata),
    /// The writer is open: nothing to do.
    Opened,
    /// The object is written: nothing to do.
    Written,
    /// The bucket is complete and consists of these files: nothing to do.
    Finished(Vec<FileMetadata>),
    /// A file in the directory has a name that it should not have: give up.
    BadName(NameError),
    /// What was asked for failed: give up.
    GiveUp,
}

/// The view of a [`WriterAction`].
#[verifier::ext_equal]
pub enum WriterActionView {
    ListDirectory,
    CreateObject { tmp_name: Seq<char>, name: Seq<char>, header: Seq<u8> },
    CreateReference { tmp_name: Seq<char>, name: Seq<char>, header: Seq<u8> },
    AppendObject(Seq<u8>),
    AppendReference(Seq<u8>),
    SealObject { name: Seq<char> },
    SealReference { name: Seq<char> },
    Send(FileMetadata),
    Opened,
    Written,
    Finished(Seq<FileMetadata>),
    BadName(NameError),
    GiveUp,
}

impl View for WriterAction {
    type V = WriterActionView;

    open spec fn view(&self) -> WriterActionView {
        match *self {
            WriterAction::ListDirectory => WriterActionView::ListDirectory,
            WriterAction::CreateObject { tmp_name, name, header } => {
                WriterActionView::CreateObject {
                    tmp_name: tmp_name@,
                    name: name@,
                    header: header@,
                }
            },
            WriterAction::CreateReference { tmp_name, name, header } => {
                WriterActionView::CreateReference {
                    tmp_name: tmp_name@,
                    name: name@,
                    header: header@,
                }
            },
            WriterAction::AppendObject(bytes) => WriterActionView::AppendObject(bytes@),
            WriterAction::AppendReference(bytes) => WriterActionView::AppendReference(bytes@),
            WriterAction::SealObject { name } => WriterActionView::SealObject { name: name@ },
            WriterAction::SealReference { name } => WriterActionView::SealReference { name: name@ },
            WriterAction::Send(file) => WriterActionView::Send(file),
            WriterAction::Opened => WriterActionView::Opened,
            WriterAction::Written => WriterActionView::Written,
            WriterAction::Finished(files) => WriterActionView::Finished(files@),
            WriterAction::BadName(error) => WriterActionView::BadName(error),
            WriterAction::GiveUp => WriterActionView::GiveUp,
        }
    }
}

/// The view of a [`LiveObjectSetWriterV1`].
#[verifier::ext_equal]
pub struct WriterView {
    pub bucket_num: u32,
    /// The part that is being written.
    pub current_part_num: u32,
    /// The number of bytes in its file.
    pub n: nat,
    /// The files that are complete.
    pub files: Seq<FileMetadata>,
    /// Files that are complete are handed on to be uploaded.
    pub sending: bool,
    pub file_compression: FileCompression,
    pub phase: WriterPhase,
}

impl WriterView {
    /// A writer that is to open its first files.
    pub open spec fn opening(bucket_num: u32, file_compression: FileCompression) -> Self {
        WriterView {
            bucket_num,
            current_part_num: 0,
            n: 0,
            files: Seq::empty(),
            sending: true,
            file_compression,
            phase: WriterPhase::Opening,
        }
    }

    /// The same writer in another phase.
    pub open spec fn at(self, phase: WriterPhase) -> Self {
        WriterView { phase, ..self }
    }

    /// The object file has no room for the blob of `object`.
    pub open spec fn must_cut(self, object: LiveObject) -> bool {
        self.n + object.blob.frame().len() > FILE_MAX_BYTES
    }

    pub open spec fn create_object(self, part_num: u32) -> WriterActionView {
        WriterActionView::CreateObject {
            tmp_name: temporary_name(object_file_name(self.bucket_num, part_num)),
            name: object_file_name(self.bucket_num, part_num),
            header: header(OBJECT_FILE_MAGIC),
        }
    }

    pub open spec fn create_reference(self) -> WriterActionView {
        WriterActionView::CreateReference {
            tmp_name: temporary_name(reference_file_name(self.bucket_num)),
            name: reference_file_name(self.bucket_num),
            header: header(REFERENCE_FILE_MAGIC),
        }
    }

    pub open spec fn seal_object(self) -> WriterActionView {
        WriterActionView::SealObject {
            name: object_file_name(self.bucket_num, self.current_part_num),
        }
    }

    pub open spec fn seal_reference(self) -> WriterActionView {
        WriterActionView::SealReference { name: reference_file_name(self.bucket_num) }
    }

    /// The metadata of the object file, once its digest is known.
    pub open spec fn object_metadata(self, sha3_digest: [u8; SHA3_BYTES]) -> FileMetadata {
        FileMetadata {
            file_type: FileType::Object,
            bucket_num: self.bucket_num,
            part_num: self.current_part_num,
            file_compression: self.file_compression,
            sha3_digest,
        }
    }

    /// The metadata of the reference file, once its digest is known.
    pub open spec fn reference_metadata(self, sha3_digest: [u8; SHA3_BYTES]) -> FileMetadata {
        FileMetadata {
            file_type: FileType::Reference,
            bucket_num: self.bucket_num,
            part_num: 0,
            file_compression: self.file_compression,
            sha3_digest,
        }
    }

    /// What the writer does when it is given an object: it appends the blob, or first gives the
    /// object another file.
    pub open spec fn on_write(self, object: LiveObject) -> (WriterView, WriterActionView) {
        if self.must_cut(object) {
            (self.at(WriterPhase::CutSeal { object }), self.seal_object())
        } else {
            self.append(object)
        }
    }

    pub open spec fn append(self, object: LiveObject) -> (WriterView, WriterActionView) {
        (
            self.at(WriterPhase::AppendObject { object }),
            WriterActionView::AppendObject(object.blob.frame()),
        )
    }

    /// What the writer does when no object is left: it completes its two files.
    pub open spec fn on_done(self) -> (WriterView, WriterActionView) {
        (self.at(WriterPhase::DoneSeal), self.seal_object())
    }

    /// What the writer does after a failure. An open writer can be given objects again; one that
    /// was being opened or completed is of no further use.
    pub open spec fn on_failure(self) -> WriterView {
        match self.phase {
            WriterPhase::Opening
            | WriterPhase::OpeningObject { .. }
            | WriterPhase::OpeningReference
            | WriterPhase::DoneSeal
            | WriterPhase::DoneSend
            | WriterPhase::DoneSealReference
            | WriterPhase::DoneSendReference
            | WriterPhase::Closed => self.at(WriterPhase::Closed),
            _ => self.at(WriterPhase::Idle),
        }
    }

    /// The writer with one more complete file.
    pub open spec fn with_file(self, file: FileMetadata) -> WriterView {
        WriterView { files: self.files.push(file), ..self }
    }

    pub open spec fn finished(self) -> (WriterView, WriterActionView) {
        (
            WriterView { sending: false, phase: WriterPhase::Closed, ..self },
            WriterActionView::Finished(self.files),
        )
    }

    /// What the writer does on `event`. An event that does not answer what was asked for is a
    /// failure.
    pub open spec fn on_event(self, event: WriterEvent) -> (WriterView, WriterActionView) {
        match (self.phase, event) {
            (WriterPhase::Opening, WriterEvent::Listed(names)) => {
                match next_part(names@, self.bucket_num) {
                    Ok(part_num) => (
                        self.at(WriterPhase::OpeningObject { part_num }),
                        self.create_object(part_num),
                    ),
                    Err(error) => (self.on_failure(), WriterActionView::BadName(error)),
                }
            },
            (WriterPhase::OpeningObject { part_num }, WriterEvent::Created { written }) => (
                WriterView {
                    current_part_num: part_num,
                    n: written as nat,
                    phase: WriterPhase::OpeningReference,
                    ..self
                },
                self.create_reference(),
            ),
            (WriterPhase::OpeningReference, WriterEvent::Created { .. }) => (
                self.at(WriterPhase::Idle),
                WriterActionView::Opened,
            ),
            (WriterPhase::CutSeal { object }, WriterEvent::Sealed(digest)) => {
                let file = self.object_metadata(digest);
                if self.sending {
                    (
                        self.with_file(file).at(WriterPhase::CutSend { object }),
                        WriterActionView::Send(file),
                    )
                } else {
                    (
                        self.with_file(file).at(WriterPhase::CutDelimit { object }),
                        WriterActionView::AppendReference(part_delimiter()),
                    )
                }
            },
            (WriterPhase::CutSend { object }, WriterEvent::Done) => (
                self.at(WriterPhase::CutDelimit { object }),
                WriterActionView::AppendReference(part_delimiter()),
            ),
            (WriterPhase::CutDelimit { object }, WriterEvent::Done) => (
                self.at(WriterPhase::CutList { object }),
                WriterActionView::ListDirectory,
            ),
            (WriterPhase::CutList { object }, WriterEvent::Listed(names)) => {
                match next_part(names@, self.bucket_num) {
                    Ok(part_num) => (
                        self.at(WriterPhase::CutCreate { object, part_num }),
                        self.create_object(part_num),
                    ),
                    Err(error) => (self.on_failure(), WriterActionView::BadName(error)),
                }
            },
            (WriterPhase::CutCreate { object, part_num }, WriterEvent::Created { written }) => {
                WriterView { current_part_num: part_num, n: written as nat, ..self }.append(object)
            },
            (WriterPhase::AppendObject { object }, WriterEvent::Done) => (
                WriterView {
                    n: self.n + object.blob.frame().len(),
                    phase: WriterPhase::AppendReference { object },
                    ..self
                },
                WriterActionView::AppendReference(object.reference.row()),
            ),
            (WriterPhase::AppendReference { .. }, WriterEvent::Done) => (
                self.at(WriterPhase::Idle),
                WriterActionView::Written,
            ),
            (WriterPhase::DoneSeal, WriterEvent::Sealed(digest)) => {
                let file = self.object_metadata(digest);
                if self.sending {
                    (
                        self.with_file(file).at(WriterPhase::DoneSend),
                        WriterActionView::Send(file),
                    )
                } else {
                    (
                        self.with_file(file).at(WriterPhase::DoneSealReference),
                        self.seal_reference(),
                    )
                }
            },
            (WriterPhase::DoneSend, WriterEvent::Done) => (
                self.at(WriterPhase::DoneSealReference),
                self.seal_reference(),
            ),
            (WriterPhase::DoneSealReference, WriterEvent::Sealed(digest)) => {
                let file = self.reference_metadata(digest);
                if self.sending {
                    (
                        self.with_file(file).at(WriterPhase::DoneSendReference),
                        WriterActionView::Send(file),
                    )
                } else {
                    self.with_file(file).finished()
                }
            },
            (WriterPhase::DoneSendReference, WriterEvent::Done) => self.finished(),
            _ => (self.on_failure(), WriterActionView::GiveUp),
        }
    }

    /// `event` can come from a file system: no more of a header is written than there is, and
    /// there is a part number left for the next object file.
    pub open spec fn admits(self, event: WriterEvent) -> bool {
        match event {
            WriterEvent::Created { written } => written <= MAGIC_BYTES,
            WriterEvent::Listed(names) => next_part_exists(names@, self.bucket_num),
            _ => true,
        }
    }

    /// The object that is being written can be counted together with what its file holds.
    pub open spec fn countable(self) -> bool {
        &&& self.n <= usize::MAX
        &&& match self.phase {
            WriterPhase::CutSeal { object }
            | WriterPhase::CutSend { object }
            | WriterPhase::CutDelimit { object }
            | WriterPhase::CutList { object }
            | WriterPhase::CutCreate { object, .. } => object.blob.countable(),
            WriterPhase::AppendObject { object } => object.blob.countable() && self.n
                + object.blob.frame().len() <= usize::MAX,
            _ => true,
        }
    }
}

/// LiveObjectSetWriterV1 writes live object set. It creates multiple *.obj files and one REFERENCE
/// file. It asks for each piece of input and output as a [`WriterAction`], and is told how it came
/// out by a [`WriterEvent`].
#[derive(Debug)]
pub struct LiveObjectSetWriterV1 {
    bucket_num: u32,
    current_part_num: u32,
    n: usize,
    files: Vec<FileMetadata>,
    sending: bool,
    file_compression: FileCompression,
    phase: WriterPhase,
}

impl View for LiveObjectSetWriterV1 {
    type V = WriterView;

    closed spec fn view(&self) -> WriterView {
        WriterView {
            bucket_num: self.bucket_num,
            current_part_num: self.current_part_num,
            n: self.n as nat,
            files: self.files@,
            sending: self.sending,
            file_compression: self.file_compression,
            phase: self.phase,
        }
    }
}

impl LiveObjectSetWriterV1 {
    /// The bytes of the object that is being written can be counted.
    pub open spec fn wf(self) -> bool {
        self@.countable()
    }

    /// Opens a writer for the bucket `bucket_num` of a directory.
    pub fn new(bucket_num: u32, file_compression: FileCompression) -> (opened: (
        Self,
        WriterAction,
    ))
        ensures
            opened.0.wf(),
            opened.0@ == WriterView::opening(bucket_num, file_compression),
            opened.1@ == WriterActionView::ListDirectory,
    {
        let writer = LiveObjectSetWriterV1 {
            bucket_num,
            current_part_num: 0,
            n: 0,
            files: vec![],
            sending: true,
            file_compression,
            phase: WriterPhase::Opening,
        };
        assert(writer@ =~= WriterView::opening(bucket_num, file_compression));
        (writer, WriterAction::ListDirectory)
    }

    /// The bucket that is being written.
    pub fn bucket_num(&self) -> (bucket_num: u32)
        ensures
            bucket_num == self@.bucket_num,
    {
        self.bucket_num
    }

    /// The writer waits for an object, or for the end.
    pub fn is_idle(&self) -> (idle: bool)
        ensures
            idle == (self@.phase is Idle),
    {
        match self.phase {
            WriterPhase::Idle => true,
            _ => false,
        }
    }

    /// Writes `object`: its blob to an object file, a new one if the current one has no room, and
    /// its reference to the reference file.
    pub fn write(&mut self, object: LiveObject) -> (action: WriterAction)
        requires
            old(self).wf(),
            old(self)@.phase is Idle,
            object.blob.countable(),
        ensures
            final(self).wf(),
            final(self)@ == old(self)@.on_write(object).0,
            action@ == old(self)@.on_write(object).1,
    {
        let blob_size: usize = object.blob.size();
        let cut_new_part_file = blob_size > FILE_MAX_BYTES || self.n > FILE_MAX_BYTES - blob_size;
        if cut_new_part_file {
            let name = object_file(self.bucket_num, self.current_part_num);
            self.phase = WriterPhase::CutSeal { object };
            WriterAction::SealObject { name }
        } else {
            self.write_object(object)
        }
    }

    /// Appends the blob of `object` to the object file.
    fn write_object(&mut self, object: LiveObject) -> (action: WriterAction)
        requires
            object.blob.countable(),
            old(self)@.n + object.blob.frame().len() <= usize::MAX,
        ensures
            final(self).wf(),
            final(self)@ == old(self)@.append(object).0,
            action@ == old(self)@.append(object).1,
    {
        let bytes = object.blob.to_frame();
        self.phase = WriterPhase::AppendObject { object };
        WriterAction::AppendObject(bytes)
    }

    /// Creates the object file of part `part_num`.
    fn next_object_file(&self, part_num: u32) -> (action: WriterAction)
        ensures
            action@ == self@.create_object(part_num),
    {
        let name = object_file(self.bucket_num, part_num);
        WriterAction::CreateObject {
            tmp_name: temporary(&name),
            name,
            header: file_header(OBJECT_FILE_MAGIC),
        }
    }

    /// Creates the reference file.
    fn ref_file(&self) -> (action: WriterAction)
        ensures
            action@ == self@.create_reference(),
    {
        let name = reference_file(self.bucket_num);
        WriterAction::CreateReference {
            tmp_name: temporary(&name),
            name,
            header: file_header(REFERENCE_FILE_MAGIC),
        }
    }

    /// Takes the object file, whose digest is `sha3_digest`, among the complete files.
    fn finalize(&mut self, sha3_digest: [u8; SHA3_BYTES]) -> (file_metadata: FileMetadata)
        ensures
            file_metadata == old(self)@.object_metadata(sha3_digest),
            final(self)@ == old(self)@.with_file(file_metadata),
    {
        let file_metadata = FileMetadata {
            file_type: FileType::Object,
            bucket_num: self.bucket_num,
            part_num: self.current_part_num,
            file_compression: self.file_compression,
            sha3_digest,
        };
        self.files.push(file_metadata);
        file_metadata
    }

    /// Takes the reference file, whose digest is `sha3_digest`, among the complete files.
    fn finalize_ref(&mut self, sha3_digest: [u8; SHA3_BYTES]) -> (file_metadata: FileMetadata)
        ensures
            file_metadata == old(self)@.reference_metadata(sha3_digest),
            final(self)@ == old(self)@.with_file(file_metadata),
    {
        let file_metadata = FileMetadata {
            file_type: FileType::Reference,
            bucket_num: self.bucket_num,
            part_num: 0,
            file_compression: self.file_compression,
            sha3_digest,
        };
        self.files.push(file_metadata);
        file_metadata
    }

    /// Hands out the files of the bucket.
    fn finish(&mut self) -> (action: WriterAction)
        ensures
            final(self).wf(),
            final(self)@ == old(self)@.finished().0,
            action@ == old(self)@.finished().1,
    {
        self.sending = false;
        self.phase = WriterPhase::Closed;
        let files = self.files.clone();
        assert(files@ =~= self.files@);
        WriterAction::Finished(files)
    }

    /// Goes on with what the writer is about, after `event`.
    pub fn resume(&mut self, event: WriterEvent) -> (action: WriterAction)
        requires
            old(self).wf(),
            old(self)@.admits(event),
        ensures
            final(self).wf(),
            final(self)@ == old(self)@.on_event(event).0,
            action@ == old(self)@.on_event(event).1,
    {
        let mut phase = WriterPhase::Closed;
        core::mem::swap(&mut self.phase, &mut phase);
        match (phase, event) {
            (WriterPhase::Opening, WriterEvent::Listed(names)) => {
                match next_object_file_number(&names, self.bucket_num) {
                    Ok(part_num) => {
                        self.phase = WriterPhase::OpeningObject { part_num };
                        self.next_object_file(part_num)
                    },
                    Err(error) => WriterAction::BadName(error),
                }
            },
            (WriterPhase::OpeningObject { part_num }, WriterEvent::Created { written }) => {
                self.current_part_num = part_num;
                self.n = written;
                self.phase = WriterPhase::OpeningReference;
                self.ref_file()
            },
            (WriterPhase::OpeningReference, WriterEvent::Created { .. }) => {
                self.phase = WriterPhase::Idle;
                WriterAction::Opened
            },
            (WriterPhase::CutSeal { object }, WriterEvent::Sealed(digest)) => {
                let file_metadata = self.finalize(digest);
                if self.sending {
                    self.phase = WriterPhase::CutSend { object };
                    WriterAction::Send(file_metadata)
                } else {
                    self.phase = WriterPhase::CutDelimit { object };
                    WriterAction::AppendReference(reference_delimiter())
                }
            },
            (WriterPhase::CutSend { object }, WriterEvent::Done) => {
                self.phase = WriterPhase::CutDelimit { object };
                WriterAction::AppendReference(reference_delimiter())
            },
            (WriterPhase::CutDelimit { object }, WriterEvent::Done) => {
                self.phase = WriterPhase::CutList { object };
                WriterAction::ListDirectory
            },
            (WriterPhase::CutList { object }, WriterEvent::Listed(names)) => {
                match next_object_file_number(&names, self.bucket_num) {
                    Ok(part_num) => {
                        self.phase = WriterPhase::CutCreate { object, part_num };
                        self.next_object_file(part_num)
                    },
                    Err(error) => {
                        self.phase = WriterPhase::Idle;
                        WriterAction::BadName(error)
                    },
                }
            },
            (WriterPhase::CutCreate { object, part_num }, WriterEvent::Created { written }) => {
                self.current_part_num = part_num;
                self.n = written;
                self.write_object(object)
            },
            (WriterPhase::AppendObject { object }, WriterEvent::Done) => {
                self.n += object.blob.size();
                let row = object.reference.to_row();
                self.phase = WriterPhase::AppendReference { object };
                WriterAction::AppendReference(row)
            },
            (WriterPhase::AppendReference { .. }, WriterEvent::Done) => {
                self.phase = WriterPhase::Idle;
                WriterAction::Written
            },
            (WriterPhase::DoneSeal, WriterEvent::Sealed(digest)) => {
                let file_metadata = self.finalize(digest);
                if self.sending {
                    self.phase = WriterPhase::DoneSend;
                    WriterAction::Send(file_metadata)
                } else {
                    self.phase = WriterPhase::DoneSealReference;
                    WriterAction::SealReference { name: reference_file(self.bucket_num) }
                }
            },
            (WriterPhase::DoneSend, WriterEvent::Done) => {
                self.phase = WriterPhase::DoneSealReference;
                WriterAction::SealReference { name: reference_file(self.bucket_num) }
            },
            (WriterPhase::DoneSealReference, WriterEvent::Sealed(digest)) => {
                let file_metadata = self.finalize_ref(digest);
                if self.sending {
                    self.phase = WriterPhase::DoneSendReference;
                    WriterAction::Send(file_metadata)
                } else {
                    self.finish()
                }
            },
            (WriterPhase::DoneSendReference, WriterEvent::Done) => self.finish(),
            (phase, _) => {
                match phase {
                    WriterPhase::Opening
                    | WriterPhase::OpeningObject { .. }
                    | WriterPhase::OpeningReference
                    | WriterPhase::DoneSeal
                    | WriterPhase::DoneSend
                    | WriterPhase::DoneSealReference
                    | WriterPhase::DoneSendReference
                    | WriterPhase::Closed => {},
                    _ => {
                        self.phase = WriterPhase::Idle;
                    },
                }
                WriterAction::GiveUp
            },
        }
    }

    /// Completes the object file and the reference file.
    pub fn done(&mut self) -> (action: WriterAction)
        requires
            old(self).wf(),
            old(self)@.phase is Idle,
        ensures
            final(self).wf(),
            final(self)@ == old(self)@.on_done().0,
            action@ == old(self)@.on_done().1,
    {
        self.phase = WriterPhase::DoneSeal;
        WriterAction::SealObject { name: object_file(self.bucket_num, self.current_part_num) }
    }
}

} // verus!
