//! What holds of the files that the writer of a bucket leaves, over all runs of it.
use crate::encoding::{
    header, lemma_be_bytes_len, part_delimiter, LiveObject, FILE_MAX_BYTES, MAGIC_BYTES,
    OBJECT_FILE_MAGIC, OBJECT_REF_BYTES, REFERENCE_FILE_MAGIC, SHA3_BYTES,
};
use crate::format_laws::{frames, law_row_determines, rows};
use crate::metadata::{lemma_decimal_plain, FileCompression, FileMetadata, FileType};
use crate::name_laws::{
    law_highest_part, law_next_part_is_new, law_object_file_name_reads_back,
    law_other_files_are_no_parts,
};
use crate::names::{
    decimal, highest_part, next_part, object_file_name, reading, reference_file_name,
    temporary_name, NameError, NameReading,
};
use crate::object_writer::{WriterActionView, WriterEvent, WriterPhase, WriterView};
use vstd::prelude::*;

verus! {

/// The files that a writer has created in its directory, each with the bytes that were written to
/// it before it was compressed, and the files that it has handed on. A file stays here when it is
/// removed from the directory once it is uploaded.
pub struct Disk {
    pub files: Map<Seq<char>, Seq<u8>>,
    /// The file that is open as the object file.
    pub object: Seq<char>,
    /// The file that is open as the reference file.
    pub reference: Seq<char>,
    pub sent: Seq<FileMetadata>,
}

impl Disk {
    /// What is there before anything is written.
    pub open spec fn empty() -> Self {
        Disk {
            files: Map::empty(),
            object: Seq::empty(),
            reference: Seq::empty(),
            sent: Seq::empty(),
        }
    }

    /// What is there once `action` has been carried out.
    pub open spec fn after(self, action: WriterActionView) -> Self {
        match action {
            WriterActionView::CreateObject { tmp_name, name, header } => Disk {
                files: self.files.remove(tmp_name).insert(name, header),
                object: name,
                ..self
            },
            WriterActionView::CreateReference { tmp_name, name, header } => Disk {
                files: self.files.remove(tmp_name).insert(name, header),
                reference: name,
                ..self
            },
            WriterActionView::AppendObject(bytes) => Disk {
                files: self.files.insert(self.object, self.files[self.object] + bytes),
                ..self
            },
            WriterActionView::AppendReference(bytes) => Disk {
                files: self.files.insert(self.reference, self.files[self.reference] + bytes),
                ..self
            },
            WriterActionView::Send(file) => Disk { sent: self.sent.push(file), ..self },
            _ => self,
        }
    }

    /// `event` says that `action` has been carried out. The header of a new file is written whole.
    pub open spec fn answers(self, action: WriterActionView, event: WriterEvent) -> bool {
        match action {
            WriterActionView::ListDirectory => event is Listed,
            WriterActionView::CreateObject { .. } => event == (WriterEvent::Created {
                written: MAGIC_BYTES,
            }),
            WriterActionView::CreateReference { .. } => event == (WriterEvent::Created {
                written: MAGIC_BYTES,
            }),
            WriterActionView::AppendObject(_) => event is Done,
            WriterActionView::AppendReference(_) => event is Done,
            WriterActionView::SealObject { .. } => event is Sealed,
            WriterActionView::SealReference { .. } => event is Sealed,
            WriterActionView::Send(_) => event is Done,
            _ => false,
        }
    }
}

/// An object file and the objects in it.
pub struct Part {
    pub part_num: u32,
    pub objects: Seq<LiveObject>,
}

impl Part {
    /// The bytes of the object file.
    pub open spec fn bytes(self) -> Seq<u8> {
        header(OBJECT_FILE_MAGIC) + frames(self.objects)
    }

    pub open spec fn with(self, object: LiveObject) -> Self {
        Part { objects: self.objects.push(object), ..self }
    }
}

/// The objects of all parts, in order.
pub open spec fn objects_of(parts: Seq<Part>) -> Seq<LiveObject>
    decreases parts.len(),
{
    if parts.len() == 0 {
        Seq::empty()
    } else {
        objects_of(parts.drop_last()) + parts.last().objects
    }
}

/// What stands in the reference file for the objects of all parts: their references, with a
/// delimiter between one part and the next.
pub open spec fn references_of(parts: Seq<Part>) -> Seq<u8>
    decreases parts.len(),
{
    if parts.len() == 0 {
        Seq::empty()
    } else if parts.len() == 1 {
        rows(parts.last().objects)
    } else {
        references_of(parts.drop_last()) + part_delimiter() + rows(parts.last().objects)
    }
}

/// What is done with a writer: it is told how what it asked for came out, given an object, or
/// told that there is no further one.
pub enum WriterInput {
    Event(WriterEvent),
    Write(LiveObject),
    Done,
}

/// `name` is among `names`.
pub open spec fn is_listed(names: Seq<String>, name: Seq<char>) -> bool {
    exists|k: int| 0 <= k < names.len() && (#[trigger] names[k])@ == name
}

/// A writer at work.
pub struct WriterRun {
    pub writer: WriterView,
    /// What the writer asked for last.
    pub action: WriterActionView,
    pub disk: Disk,
    /// The object files so far.
    pub parts: Seq<Part>,
    /// The objects that the writer has been given.
    pub given: Seq<LiveObject>,
    /// The files that have been completed, by name, each with the digest that its completion was
    /// answered with.
    pub sealed: Seq<(Seq<char>, [u8; SHA3_BYTES])>,
}

impl WriterRun {
    /// A writer that is opened for a bucket.
    pub open spec fn start(bucket_num: u32, file_compression: FileCompression) -> Self {
        WriterRun {
            writer: WriterView::opening(bucket_num, file_compression),
            action: WriterActionView::ListDirectory,
            disk: Disk::empty(),
            parts: Seq::empty(),
            given: Seq::empty(),
            sealed: Seq::empty(),
        }
    }

    /// The completed files after `event`.
    pub open spec fn sealed_after(self, event: WriterEvent) -> Seq<
        (Seq<char>, [u8; SHA3_BYTES]),
    > {
        match (self.action, event) {
            (WriterActionView::SealObject { name }, WriterEvent::Sealed(digest)) => {
                self.sealed.push((name, digest))
            },
            (WriterActionView::SealReference { name }, WriterEvent::Sealed(digest)) => {
                self.sealed.push((name, digest))
            },
            _ => self.sealed,
        }
    }

    /// The parts after `event`: a new file is a new part, and a blob goes to the last one.
    pub open spec fn parts_after(self, event: WriterEvent) -> Seq<Part> {
        match self.writer.phase {
            WriterPhase::OpeningObject { part_num } => self.parts.push(
                Part { part_num, objects: Seq::empty() },
            ),
            WriterPhase::CutCreate { part_num, .. } => self.parts.push(
                Part { part_num, objects: Seq::empty() },
            ),
            WriterPhase::AppendObject { object } => self.parts.drop_last().push(
                self.parts.last().with(object),
            ),
            _ => self.parts,
        }
    }

    pub open spec fn next(self, input: WriterInput) -> Self {
        match input {
            WriterInput::Event(event) => {
                let (writer, action) = self.writer.on_event(event);
                WriterRun {
                    writer,
                    action,
                    disk: self.disk.after(self.action),
                    parts: self.parts_after(event),
                    given: self.given,
                    sealed: self.sealed_after(event),
                }
            },
            WriterInput::Write(object) => {
                let (writer, action) = self.writer.on_write(object);
                WriterRun { writer, action, given: self.given.push(object), ..self }
            },
            WriterInput::Done => {
                let (writer, action) = self.writer.on_done();
                WriterRun { writer, action, ..self }
            },
        }
    }

    /// The number that a listing of the directory gives the next object file is not that of one
    /// which the writer has created already.
    pub open spec fn is_fresh(self, event: WriterEvent) -> bool {
        event matches WriterEvent::Listed(names) ==> match next_part(
            names@,
            self.writer.bucket_num,
        ) {
            Ok(part_num) => !self.disk.files.dom().contains(
                object_file_name(self.writer.bucket_num, part_num),
            ),
            Err(_) => true,
        }
    }

    /// A listing of the directory has the last object file that the writer has created.
    pub open spec fn shows_last(self, event: WriterEvent) -> bool {
        event matches WriterEvent::Listed(names) ==> self.parts.len() > 0 ==> is_listed(
            names@,
            self.name_of(self.parts.last()),
        )
    }

    /// A listing of the directory has the object files that the writer has created, and no other
    /// object files of its bucket. What it has of other buckets does not matter.
    pub open spec fn is_exact(self, event: WriterEvent) -> bool {
        event matches WriterEvent::Listed(names) ==> self.lists_own(names@)
    }

    /// `names` has the object files that the writer has created, and no others of its bucket.
    pub open spec fn lists_own(self, names: Seq<String>) -> bool {
        &&& forall|i: int|
            0 <= i < self.parts.len() ==> is_listed(names, self.name_of(#[trigger] self.parts[i]))
        &&& forall|k: int|
            0 <= k < names.len() && reading((#[trigger] names[k])@, self.writer.bucket_num) is Part
                ==> exists|i: int|
                0 <= i < self.parts.len() && names[k]@ == self.name_of(#[trigger] self.parts[i])
    }

    /// What the writer asked for has been carried out, or it asked for nothing and is given an
    /// object or told that there is none. A listing of the directory may lack files that the
    /// writer has created, as it does when they have been uploaded and removed.
    pub open spec fn admits(self, input: WriterInput) -> bool {
        match input {
            WriterInput::Event(event) => self.disk.answers(self.action, event)
                && self.writer.admits(event),
            _ => self.writer.phase is Idle && (self.action is Opened || self.action is Written),
        }
    }
}

/// The run of a writer over `inputs`.
pub open spec fn run(
    bucket_num: u32,
    file_compression: FileCompression,
    inputs: Seq<WriterInput>,
) -> WriterRun
    decreases inputs.len(),
{
    if inputs.len() == 0 {
        WriterRun::start(bucket_num, file_compression)
    } else {
        run(bucket_num, file_compression, inputs.drop_last()).next(inputs.last())
    }
}

/// In the run over `inputs` everything that was asked for has been carried out. This says nothing
/// of the numbers that the object files get: see [`numbers_afresh`].
pub open spec fn succeeds(
    bucket_num: u32,
    file_compression: FileCompression,
    inputs: Seq<WriterInput>,
) -> bool
    decreases inputs.len(),
{
    inputs.len() > 0 ==> {
        &&& succeeds(bucket_num, file_compression, inputs.drop_last())
        &&& run(bucket_num, file_compression, inputs.drop_last()).admits(inputs.last())
    }
}

/// In the run over `inputs` no listing of the directory gives an object file a number that one has
/// already. It is so if the last object file is still in the directory whenever that is listed:
/// see [`law_last_part_listed_is_enough`]. Where it has been uploaded and removed by then, its
/// number comes up again and the new file replaces it.
pub open spec fn numbers_afresh(
    bucket_num: u32,
    file_compression: FileCompression,
    inputs: Seq<WriterInput>,
) -> bool
    decreases inputs.len(),
{
    inputs.len() > 0 ==> {
        &&& numbers_afresh(bucket_num, file_compression, inputs.drop_last())
        &&& inputs.last() matches WriterInput::Event(event) ==> run(
            bucket_num,
            file_compression,
            inputs.drop_last(),
        ).is_fresh(event)
    }
}

/// In the run over `inputs` the last object file is still in the directory whenever that is listed.
pub open spec fn lists_last(
    bucket_num: u32,
    file_compression: FileCompression,
    inputs: Seq<WriterInput>,
) -> bool
    decreases inputs.len(),
{
    inputs.len() > 0 ==> {
        &&& lists_last(bucket_num, file_compression, inputs.drop_last())
        &&& inputs.last() matches WriterInput::Event(event) ==> run(
            bucket_num,
            file_compression,
            inputs.drop_last(),
        ).shows_last(event)
    }
}

/// In the run over `inputs` the directory has no object files of the bucket at first, and none is
/// removed from it: each listing has the object files that the writer has created, and no others
/// of its bucket.
pub open spec fn lists_exactly(
    bucket_num: u32,
    file_compression: FileCompression,
    inputs: Seq<WriterInput>,
) -> bool
    decreases inputs.len(),
{
    inputs.len() > 0 ==> {
        &&& lists_exactly(bucket_num, file_compression, inputs.drop_last())
        &&& inputs.last() matches WriterInput::Event(event) ==> run(
            bucket_num,
            file_compression,
            inputs.drop_last(),
        ).is_exact(event)
    }
}

/// `file` is the metadata of part `part`.
pub open spec fn is_metadata_of(file: FileMetadata, writer: WriterView, part: Part) -> bool {
    &&& file.file_type == FileType::Object
    &&& file.bucket_num == writer.bucket_num
    &&& file.part_num == part.part_num
    &&& file.file_compression == writer.file_compression
}

impl WriterRun {
    /// The bytes of the reference file.
    pub open spec fn reference_bytes(self) -> Seq<u8> {
        self.disk.files[self.disk.reference]
    }

    /// What the reference file holds once it has the references of all objects in the parts.
    pub open spec fn all_references(self) -> Seq<u8> {
        header(REFERENCE_FILE_MAGIC) + references_of(self.parts)
    }

    /// The name of the file of a part.
    pub open spec fn name_of(self, part: Part) -> Seq<char> {
        object_file_name(self.writer.bucket_num, part.part_num)
    }

    /// Every part keeps within the limit unless it holds one object.
    pub open spec fn parts_sized(self) -> bool {
        forall|i: int|
            0 <= i < self.parts.len() ==> (#[trigger] self.parts[i]).bytes().len()
                <= FILE_MAX_BYTES || self.parts[i].objects.len() == 1
    }

    /// Every part has a file of its own with its objects in it.
    pub open spec fn parts_stored(self) -> bool {
        &&& forall|i: int, j: int|
            0 <= i < j < self.parts.len() ==> (#[trigger] self.parts[i]).part_num != (
            #[trigger] self.parts[j]).part_num
        &&& forall|i: int|
            0 <= i < self.parts.len() ==> {
                &&& self.disk.files.dom().contains(self.name_of(#[trigger] self.parts[i]))
                &&& self.disk.files[self.name_of(self.parts[i])] == self.parts[i].bytes()
            }
        &&& self.writer.phase matches WriterPhase::CutCreate { part_num, .. } ==> forall|i: int|
            0 <= i < self.parts.len() ==> (#[trigger] self.parts[i]).part_num != part_num
    }

    /// There are no files but those of the parts and the reference file.
    pub open spec fn files_known(self) -> bool {
        forall|name: Seq<char>| #[trigger]
            self.disk.files.dom().contains(name) ==> name == reference_file_name(
                self.writer.bucket_num,
            ) || exists|i: int|
                0 <= i < self.parts.len() && name == self.name_of(#[trigger] self.parts[i])
    }

    /// The numbers of the parts rise.
    pub open spec fn parts_rising(self) -> bool {
        &&& forall|i: int, j: int|
            0 <= i < j < self.parts.len() ==> (#[trigger] self.parts[i]).part_num < (
            #[trigger] self.parts[j]).part_num
        &&& self.files_known()
        &&& self.writer.phase matches WriterPhase::CutCreate { part_num, .. } ==> forall|i: int|
            0 <= i < self.parts.len() ==> (#[trigger] self.parts[i]).part_num < part_num
    }

    /// The parts are numbered from 1 on, and there are no files but theirs and the reference file.
    pub open spec fn parts_numbered(self) -> bool {
        &&& forall|i: int|
            0 <= i < self.parts.len() ==> (#[trigger] self.parts[i]).part_num == i + 1
        &&& self.files_known()
        &&& match self.writer.phase {
            WriterPhase::OpeningObject { part_num } => part_num == 1,
            WriterPhase::CutCreate { part_num, .. } => part_num == self.parts.len() + 1,
            _ => true,
        }
    }

    /// The first `count` complete files are the first `count` parts.
    pub open spec fn lists_parts(self, count: int) -> bool {
        &&& 0 <= count <= self.parts.len()
        &&& count <= self.writer.files.len()
        &&& forall|i: int|
            0 <= i < count ==> is_metadata_of(
                #[trigger] self.writer.files[i],
                self.writer,
                self.parts[i],
            )
    }

    /// The last part is open, its file holds its objects, and the writer has its size.
    pub open spec fn object_file_open(self) -> bool {
        &&& self.parts.len() > 0
        &&& self.disk.object == self.name_of(self.parts.last())
        &&& self.disk.files.dom().contains(self.disk.object)
        &&& self.disk.files[self.disk.object] == self.parts.last().bytes()
        &&& self.writer.current_part_num == self.parts.last().part_num
        &&& self.writer.n == self.parts.last().bytes().len()
    }

    pub open spec fn reference_file_open(self) -> bool {
        &&& self.disk.reference == reference_file_name(self.writer.bucket_num)
        &&& self.disk.files.dom().contains(self.disk.reference)
    }

    /// The writer has both its files open.
    pub open spec fn open(self) -> bool {
        &&& self.writer.sending
        &&& self.parts_sized()
        &&& self.object_file_open()
        &&& self.reference_file_open()
    }

    /// `count` parts are complete, and their metadata has been handed on.
    pub open spec fn sent(self, count: int) -> bool {
        &&& self.lists_parts(count)
        &&& self.writer.files.len() == count
        &&& self.disk.sent == self.writer.files
    }

    /// `count` parts are complete, and the metadata of the last is to be handed on.
    pub open spec fn sending(self, count: int) -> bool {
        &&& self.lists_parts(count)
        &&& self.writer.files.len() == count
        &&& count > 0
        &&& self.disk.sent == self.writer.files.drop_last()
        &&& self.action == WriterActionView::Send(self.writer.files.last())
    }

    /// The last complete file is the reference file.
    pub open spec fn ends_with_reference(self) -> bool {
        let file = self.writer.files.last();
        &&& self.lists_parts(self.parts.len() as int)
        &&& self.writer.files.len() == self.parts.len() + 1
        &&& file.file_type == FileType::Reference
        &&& file.bucket_num == self.writer.bucket_num
        &&& file.part_num == 0
        &&& file.file_compression == self.writer.file_compression
    }

    /// What holds at every point of a run in which everything that was asked for has been carried
    /// out.
    #[verifier::opaque]
    pub open spec fn consistent(self) -> bool {
        let nothing_yet = {
            &&& self.writer.sending
            &&& self.writer.files.len() == 0
            &&& self.parts.len() == 0
            &&& self.given.len() == 0
            &&& self.disk.sent.len() == 0
            &&& self.disk.files == Map::<Seq<char>, Seq<u8>>::empty()
        };
        let len = self.parts.len() as int;
        let stored = objects_of(self.parts);
        match self.writer.phase {
            WriterPhase::Opening => nothing_yet && self.action is ListDirectory,
            WriterPhase::OpeningObject { part_num } => nothing_yet && self.action
                == self.writer.create_object(part_num),
            WriterPhase::OpeningReference => {
                &&& self.action == self.writer.create_reference()
                &&& self.writer.sending
                &&& self.parts_sized()
                &&& self.object_file_open()
                &&& len == 1
                &&& self.parts[0].objects.len() == 0
                &&& self.given.len() == 0
                &&& self.sent(0)
            },
            WriterPhase::Idle => if self.action is Opened || self.action is Written {
                &&& self.open()
                &&& self.sent(len - 1)
                &&& stored == self.given
                &&& self.reference_bytes() == self.all_references()
            } else {
                self.action is BadName || self.action is GiveUp
            },
            WriterPhase::CutSeal { object } => {
                &&& self.action == self.writer.seal_object()
                &&& self.open()
                &&& self.sent(len - 1)
                &&& stored.push(object) == self.given
                &&& self.reference_bytes() == self.all_references()
            },
            WriterPhase::CutSend { object } => {
                &&& self.open()
                &&& self.sending(len)
                &&& stored.push(object) == self.given
                &&& self.reference_bytes() == self.all_references()
            },
            WriterPhase::CutDelimit { object } => {
                &&& self.action == WriterActionView::AppendReference(part_delimiter())
                &&& self.open()
                &&& self.sent(len)
                &&& stored.push(object) == self.given
                &&& self.reference_bytes() == self.all_references()
            },
            WriterPhase::CutList { object } => {
                &&& self.action is ListDirectory
                &&& self.open()
                &&& self.sent(len)
                &&& stored.push(object) == self.given
                &&& self.reference_bytes() == self.all_references() + part_delimiter()
            },
            WriterPhase::CutCreate { object, part_num } => {
                &&& self.action == self.writer.create_object(part_num)
                &&& self.open()
                &&& self.sent(len)
                &&& stored.push(object) == self.given
                &&& self.reference_bytes() == self.all_references() + part_delimiter()
            },
            WriterPhase::AppendObject { object } => {
                &&& self.action == WriterActionView::AppendObject(object.blob.frame())
                &&& self.open()
                &&& self.sent(len - 1)
                &&& stored.push(object) == self.given
                &&& self.reference_bytes() == self.all_references()
                &&& !self.writer.must_cut(object) || self.parts.last().objects.len() == 0
            },
            WriterPhase::AppendReference { object } => {
                &&& self.action == WriterActionView::AppendReference(object.reference.row())
                &&& self.open()
                &&& self.sent(len - 1)
                &&& stored == self.given
                &&& self.reference_bytes() + object.reference.row() == self.all_references()
            },
            WriterPhase::DoneSeal => {
                &&& self.action == self.writer.seal_object()
                &&& self.open()
                &&& self.sent(len - 1)
                &&& stored == self.given
                &&& self.reference_bytes() == self.all_references()
            },
            WriterPhase::DoneSend => {
                &&& self.open()
                &&& self.sending(len)
                &&& stored == self.given
                &&& self.reference_bytes() == self.all_references()
            },
            WriterPhase::DoneSealReference => {
                &&& self.action == self.writer.seal_reference()
                &&& self.open()
                &&& self.sent(len)
                &&& stored == self.given
                &&& self.reference_bytes() == self.all_references()
            },
            WriterPhase::DoneSendReference => {
                &&& self.open()
                &&& self.ends_with_reference()
                &&& self.disk.sent == self.writer.files.drop_last()
                &&& self.action == WriterActionView::Send(self.writer.files.last())
                &&& stored == self.given
                &&& self.reference_bytes() == self.all_references()
            },
            WriterPhase::Closed => match self.action {
                WriterActionView::Finished(files) => {
                    &&& files == self.writer.files
                    &&& self.parts_sized()
                    &&& self.object_file_open()
                    &&& self.reference_file_open()
                    &&& self.ends_with_reference()
                    &&& self.disk.sent == files
                    &&& stored == self.given
                    &&& self.reference_bytes() == self.all_references()
                },
                WriterActionView::BadName(_) | WriterActionView::GiveUp => true,
                _ => false,
            },
        }
    }
}

/// A part with one more object.
proof fn lemma_part_with(parts: Seq<Part>, object: LiveObject)
    requires
        parts.len() > 0,
    ensures
        ({
            let grown = parts.drop_last().push(parts.last().with(object));
            &&& parts.last().with(object).bytes() == parts.last().bytes() + object.blob.frame()
            &&& objects_of(grown) == objects_of(parts).push(object)
            &&& references_of(grown) == references_of(parts) + object.reference.row()
        }),
{
    let last = parts.last();
    let grown = parts.drop_last().push(last.with(object));
    assert(last.with(object).objects.drop_last() =~= last.objects);
    assert(last.with(object).bytes() =~= last.bytes() + object.blob.frame());
    assert(grown.drop_last() =~= parts.drop_last());
    assert(objects_of(grown) =~= objects_of(parts).push(object));
    assert(references_of(grown) =~= references_of(parts) + object.reference.row());
}

/// One more part, with nothing in it.
proof fn lemma_part_new(parts: Seq<Part>, part_num: u32)
    ensures
        ({
            let part = Part { part_num, objects: Seq::empty() };
            let grown = parts.push(part);
            &&& part.bytes() == header(OBJECT_FILE_MAGIC)
            &&& part.bytes().len() == MAGIC_BYTES
            &&& objects_of(grown) == objects_of(parts)
            &&& references_of(grown) == if parts.len() == 0 {
                Seq::empty()
            } else {
                references_of(parts) + part_delimiter()
            }
        }),
{
    let part = Part { part_num, objects: Seq::empty() };
    let grown = parts.push(part);
    lemma_be_bytes_len(OBJECT_FILE_MAGIC as nat, MAGIC_BYTES as nat);
    assert(part.bytes() =~= header(OBJECT_FILE_MAGIC));
    assert(grown.drop_last() =~= parts);
    assert(objects_of(grown) =~= objects_of(parts));
    if parts.len() > 0 {
        assert(references_of(grown) =~= references_of(parts) + part_delimiter());
    }
}

/// The files of a writer do not get in each other's way.
proof fn lemma_names(bucket_num: u32, part_num: u32, other: u32)
    ensures
        object_file_name(bucket_num, part_num) != reference_file_name(bucket_num),
        object_file_name(bucket_num, part_num) != temporary_name(
            object_file_name(bucket_num, other),
        ),
        object_file_name(bucket_num, part_num) != temporary_name(reference_file_name(bucket_num)),
        reference_file_name(bucket_num) != temporary_name(object_file_name(bucket_num, other)),
        part_num != other ==> object_file_name(bucket_num, part_num) != object_file_name(
            bucket_num,
            other,
        ),
{
    law_object_file_name_reads_back(bucket_num, part_num, bucket_num);
    law_object_file_name_reads_back(bucket_num, other, bucket_num);
    law_other_files_are_no_parts(bucket_num, object_file_name(bucket_num, other), bucket_num);
    law_other_files_are_no_parts(bucket_num, reference_file_name(bucket_num), bucket_num);
    reveal_strlit("REFERENCE-");
    let reference = reference_file_name(bucket_num);
    let tmp = temporary_name(object_file_name(bucket_num, other));
    lemma_decimal_plain(bucket_num as nat);
    assert(reference[0] == 'R');
    assert(tmp[0] == decimal(bucket_num as nat)[0]);
}

/// A listing that has all the files which the writer has created gives the next object file a new
/// number.
pub proof fn law_complete_listing_is_fresh(r: WriterRun, names: Vec<String>)
    requires
        r.writer.admits(WriterEvent::Listed(names)),
        forall|name: Seq<char>| #[trigger]
            r.disk.files.dom().contains(name) ==> is_listed(names@, name),
    ensures
        r.is_fresh(WriterEvent::Listed(names)),
{
    if let Ok(part_num) = next_part(names@, r.writer.bucket_num) {
        law_next_part_is_new(names@, r.writer.bucket_num, part_num);
    }
}

proof fn lemma_opening_keeps(r: WriterRun, event: WriterEvent)
    requires
        r.consistent(),
        r.admits(WriterInput::Event(event)),
        r.writer.phase is Opening || r.writer.phase is OpeningObject
            || r.writer.phase is OpeningReference,
    ensures
        r.next(WriterInput::Event(event)).consistent(),
{
    reveal(WriterRun::consistent);
    let s = r.next(WriterInput::Event(event));
    let bucket_num = r.writer.bucket_num;
    match r.writer.phase {
        WriterPhase::OpeningObject { part_num } => {
            lemma_part_new(r.parts, part_num);
            assert(s.parts.last() == s.parts[0]);
            assert(s.parts_sized());
            assert(s.disk.sent =~= s.writer.files);
        },
        WriterPhase::OpeningReference => {
            lemma_names(bucket_num, r.parts[0].part_num, 0);
            assert(r.parts.drop_last() =~= Seq::empty());
            assert(r.parts.last() == r.parts[0]);
            assert(objects_of(r.parts.drop_last()) =~= Seq::empty());
            assert(objects_of(r.parts) =~= Seq::empty());
            assert(references_of(r.parts) =~= Seq::empty());
            assert(s.given =~= objects_of(s.parts));
            assert(s.reference_bytes() =~= s.all_references());
            assert(s.parts_sized());
        },
        _ => {},
    }
}

proof fn lemma_cut_keeps(r: WriterRun, event: WriterEvent)
    requires
        r.consistent(),
        r.admits(WriterInput::Event(event)),
        r.writer.phase is CutSeal || r.writer.phase is CutSend || r.writer.phase is CutDelimit
            || r.writer.phase is CutList,
    ensures
        r.next(WriterInput::Event(event)).consistent(),
{
    reveal(WriterRun::consistent);
    let s = r.next(WriterInput::Event(event));
    let bucket_num = r.writer.bucket_num;
    match r.writer.phase {
        WriterPhase::CutSeal { object } => {
            assert(s.writer.files.drop_last() =~= r.writer.files);
            assert(s.parts_sized());
        },
        WriterPhase::CutSend { object } => {
            assert(s.disk.sent =~= s.writer.files);
            assert(s.parts_sized());
        },
        WriterPhase::CutDelimit { object } => {
            lemma_names(bucket_num, r.parts.last().part_num, 0);
            assert(s.parts_sized());
        },
        WriterPhase::CutList { object } => {
            assert(s.parts_sized());
        },
        _ => {},
    }
}

proof fn lemma_create_keeps(r: WriterRun, event: WriterEvent)
    requires
        r.consistent(),
        r.admits(WriterInput::Event(event)),
        r.writer.phase is CutCreate,
    ensures
        r.next(WriterInput::Event(event)).consistent(),
{
    reveal(WriterRun::consistent);
    let s = r.next(WriterInput::Event(event));
    let bucket_num = r.writer.bucket_num;
    let part_num = r.writer.phase->CutCreate_part_num;
    lemma_part_new(r.parts, part_num);
    lemma_names(bucket_num, part_num, part_num);
    let len = r.parts.len() as int;
    assert forall|i: int| 0 <= i < s.parts.len() implies (#[trigger] s.parts[i]).bytes().len()
        <= FILE_MAX_BYTES || s.parts[i].objects.len() == 1 by {
        if i < len {
            assert(s.parts[i] == r.parts[i]);
        }
    }
    assert(s.parts_sized());
    assert(s.parts.drop_last() =~= r.parts);
    assert(s.reference_bytes() =~= s.all_references());
    assert forall|i: int| 0 <= i < s.parts.len() - 1 implies is_metadata_of(
        #[trigger] s.writer.files[i],
        s.writer,
        s.parts[i],
    ) by {
        assert(is_metadata_of(r.writer.files[i], r.writer, r.parts[i]));
    }
}

proof fn lemma_append_keeps(r: WriterRun, event: WriterEvent)
    requires
        r.consistent(),
        r.admits(WriterInput::Event(event)),
        r.writer.phase is AppendObject || r.writer.phase is AppendReference,
    ensures
        r.next(WriterInput::Event(event)).consistent(),
{
    reveal(WriterRun::consistent);
    let s = r.next(WriterInput::Event(event));
    let bucket_num = r.writer.bucket_num;
    let len = r.parts.len() as int;
    match r.writer.phase {
        WriterPhase::AppendObject { object } => {
            lemma_part_with(r.parts, object);
            lemma_names(bucket_num, r.parts.last().part_num, 0);
            let last = len - 1;
            assert(s.parts[last].part_num == r.parts[last].part_num);
            assert(s.parts.last() == s.parts[last]);
            assert forall|i: int| 0 <= i < s.parts.len() implies (
            #[trigger] s.parts[i]).bytes().len() <= FILE_MAX_BYTES || s.parts[i].objects.len()
                == 1 by {
                if i < last {
                    assert(s.parts[i] == r.parts[i]);
                }
            }
            assert(s.parts_sized());
            assert(s.reference_bytes() + object.reference.row() =~= s.all_references());
            assert forall|i: int| 0 <= i < len - 1 implies is_metadata_of(
                #[trigger] s.writer.files[i],
                s.writer,
                s.parts[i],
            ) by {
                assert(is_metadata_of(r.writer.files[i], r.writer, r.parts[i]));
            }
        },
        WriterPhase::AppendReference { object } => {
            lemma_names(bucket_num, r.parts.last().part_num, 0);
            assert(s.parts_sized());
        },
        _ => {},
    }
}

proof fn lemma_done_keeps(r: WriterRun, event: WriterEvent)
    requires
        r.consistent(),
        r.admits(WriterInput::Event(event)),
        r.writer.phase is DoneSeal || r.writer.phase is DoneSend
            || r.writer.phase is DoneSealReference || r.writer.phase is DoneSendReference,
    ensures
        r.next(WriterInput::Event(event)).consistent(),
{
    reveal(WriterRun::consistent);
    let s = r.next(WriterInput::Event(event));
    match r.writer.phase {
        WriterPhase::DoneSeal => {
            assert(s.writer.files.drop_last() =~= r.writer.files);
        },
        WriterPhase::DoneSend => {
            assert(s.disk.sent =~= s.writer.files);
        },
        WriterPhase::DoneSealReference => {
            assert(s.writer.files.drop_last() =~= r.writer.files);
        },
        WriterPhase::DoneSendReference => {
            assert(s.disk.sent =~= s.writer.files);
        },
        _ => {},
    }
    assert(s.parts_sized());
    assert forall|i: int|
        0 <= i < r.writer.files.len() && i < r.parts.len() implies is_metadata_of(
        #[trigger] s.writer.files[i],
        s.writer,
        s.parts[i],
    ) by {
        assert(is_metadata_of(r.writer.files[i], r.writer, r.parts[i]));
    }
}

/// Whatever is done with a writer, as long as everything that it asked for has been carried out,
/// its open files are as they should be, and so is what it has handed on.
pub proof fn law_step_keeps_consistent(r: WriterRun, input: WriterInput)
    requires
        r.consistent(),
        r.admits(input),
    ensures
        r.next(input).consistent(),
{
    reveal(WriterRun::consistent);
    match input {
        WriterInput::Event(event) => {
            match r.writer.phase {
                WriterPhase::Opening
                | WriterPhase::OpeningObject { .. }
                | WriterPhase::OpeningReference => lemma_opening_keeps(r, event),
                WriterPhase::CutSeal { .. }
                | WriterPhase::CutSend { .. }
                | WriterPhase::CutDelimit { .. }
                | WriterPhase::CutList { .. } => lemma_cut_keeps(r, event),
                WriterPhase::CutCreate { .. } => lemma_create_keeps(r, event),
                WriterPhase::AppendObject { .. }
                | WriterPhase::AppendReference { .. } => lemma_append_keeps(r, event),
                WriterPhase::DoneSeal
                | WriterPhase::DoneSend
                | WriterPhase::DoneSealReference
                | WriterPhase::DoneSendReference => lemma_done_keeps(r, event),
                _ => {},
            }
        },
        _ => {
            let s = r.next(input);
            assert(s.parts_sized());
        },
    }
}

/// Whatever is done with a writer, its parts stay in files of their own as long as no listing gives
/// an object file a number that one has already.
pub proof fn law_step_keeps_stored(r: WriterRun, input: WriterInput)
    requires
        r.consistent(),
        r.parts_stored(),
        r.admits(input),
        input matches WriterInput::Event(event) ==> r.is_fresh(event),
    ensures
        r.next(input).parts_stored(),
{
    reveal(WriterRun::consistent);
    let s = r.next(input);
    let bucket_num = r.writer.bucket_num;
    let len = r.parts.len() as int;
    match input {
        WriterInput::Event(event) => {
            match r.writer.phase {
                WriterPhase::OpeningObject { part_num } | WriterPhase::CutCreate {
                    part_num,
                    ..
                } => {
                    lemma_part_new(r.parts, part_num);
                    lemma_names(bucket_num, part_num, part_num);
                    assert forall|i: int| 0 <= i < s.parts.len() implies {
                        &&& s.disk.files.dom().contains(s.name_of(#[trigger] s.parts[i]))
                        &&& s.disk.files[s.name_of(s.parts[i])] == s.parts[i].bytes()
                    } by {
                        if i < len {
                            assert(s.parts[i] == r.parts[i]);
                            lemma_names(bucket_num, r.parts[i].part_num, part_num);
                        }
                    }
                },
                WriterPhase::AppendObject { object } => {
                    lemma_part_with(r.parts, object);
                    let last = len - 1;
                    assert forall|i: int| 0 <= i < s.parts.len() implies {
                        &&& s.disk.files.dom().contains(s.name_of(#[trigger] s.parts[i]))
                        &&& s.disk.files[s.name_of(s.parts[i])] == s.parts[i].bytes()
                    } by {
                        assert(s.name_of(s.parts[i]) == r.name_of(r.parts[i]));
                        if i < last {
                            assert(s.parts[i] == r.parts[i]);
                            lemma_names(bucket_num, r.parts[i].part_num, r.parts[last].part_num);
                        }
                    }
                    assert forall|i: int, j: int| 0 <= i < j < s.parts.len() implies (
                    #[trigger] s.parts[i]).part_num != (#[trigger] s.parts[j]).part_num by {
                        assert(s.parts[i].part_num == r.parts[i].part_num);
                        assert(s.parts[j].part_num == r.parts[j].part_num);
                    }
                },
                WriterPhase::CutList { .. } => {
                    if let WriterEvent::Listed(names) = event {
                        if let Ok(part_num) = next_part(names@, bucket_num) {
                            assert forall|i: int| 0 <= i < r.parts.len() implies (
                            #[trigger] r.parts[i]).part_num != part_num by {
                                assert(r.disk.files.dom().contains(r.name_of(r.parts[i])));
                            }
                        }
                    }
                },
                _ => {
                    assert forall|i: int| 0 <= i < s.parts.len() implies {
                        &&& s.disk.files.dom().contains(s.name_of(#[trigger] s.parts[i]))
                        &&& s.disk.files[s.name_of(s.parts[i])] == s.parts[i].bytes()
                    } by {
                        assert(r.disk.files.dom().contains(r.name_of(r.parts[i])));
                        lemma_names(bucket_num, r.parts[i].part_num, 0);
                    }
                },
            }
        },
        _ => {},
    }
}

/// An object file with `bytes` bytes has no room for the blob of `object`: with it, the file would
/// have more than 128 MiB.
pub open spec fn overflows(bytes: nat, object: LiveObject) -> bool {
    bytes + object.blob.frame().len() > 134217728
}

impl WriterRun {
    /// Each file that is complete is listed with the digest that its completion was answered with,
    /// under its own name.
    pub open spec fn digests_kept(self) -> bool {
        &&& self.writer.files.len() == self.sealed.len()
        &&& forall|i: int|
            0 <= i < self.sealed.len() ==> {
                &&& (#[trigger] self.writer.files[i]).sha3_digest == self.sealed[i].1
                &&& self.writer.files[i].name() == self.sealed[i].0
            }
    }

    /// A part has been ended only where the next object did not fit.
    pub open spec fn parts_filled(self) -> bool {
        let len = self.parts.len() as int;
        &&& forall|i: int|
            0 < i < len ==> if (#[trigger] self.parts[i]).objects.len() > 0 {
                overflows(self.parts[i - 1].bytes().len(), self.parts[i].objects[0])
            } else {
                &&& i == len - 1
                &&& self.writer.phase is AppendObject
                &&& overflows(
                    self.parts[i - 1].bytes().len(),
                    self.writer.phase->AppendObject_object,
                )
            }
        &&& match self.writer.phase {
            WriterPhase::CutSeal { object }
            | WriterPhase::CutSend { object }
            | WriterPhase::CutDelimit { object }
            | WriterPhase::CutList { object }
            | WriterPhase::CutCreate { object, .. } => overflows(
                self.parts.last().bytes().len(),
                object,
            ),
            _ => true,
        }
    }
}

/// Whatever is done with a writer, each file that is complete keeps the digest that its completion
/// was answered with.
pub proof fn law_step_keeps_digests(r: WriterRun, input: WriterInput)
    requires
        r.consistent(),
        r.digests_kept(),
        r.admits(input),
    ensures
        r.next(input).digests_kept(),
{
    reveal(WriterRun::consistent);
    let s = r.next(input);
    match input {
        WriterInput::Event(event) => {
            assert forall|i: int| 0 <= i < s.sealed.len() implies {
                &&& (#[trigger] s.writer.files[i]).sha3_digest == s.sealed[i].1
                &&& s.writer.files[i].name() == s.sealed[i].0
            } by {
                if i < r.sealed.len() {
                    assert(s.writer.files[i] == r.writer.files[i]);
                    assert(s.sealed[i] == r.sealed[i]);
                }
            }
        },
        _ => {},
    }
}

/// Whatever is done with a writer, it ends a part only where the next object does not fit.
pub proof fn law_step_keeps_filled(r: WriterRun, input: WriterInput)
    requires
        r.consistent(),
        r.parts_filled(),
        r.admits(input),
    ensures
        r.next(input).parts_filled(),
{
    reveal(WriterRun::consistent);
    let s = r.next(input);
    let len = r.parts.len() as int;
    match input {
        WriterInput::Event(event) => {
            match r.writer.phase {
                WriterPhase::OpeningObject { .. } => {},
                WriterPhase::CutCreate { object, .. } => {
                    assert(s.parts[len].objects.len() == 0);
                    assert forall|i: int| 0 < i < len implies (#[trigger] s.parts[i]) == r.parts[i]
                        && s.parts[i - 1] == r.parts[i - 1] && r.parts[i].objects.len() > 0 by {}
                },
                WriterPhase::AppendObject { object } => {
                    lemma_part_with(r.parts, object);
                    let last = len - 1;
                    assert forall|i: int| 0 < i < len implies (#[trigger] s.parts[i]).objects.len()
                        > 0 && overflows(
                        s.parts[i - 1].bytes().len(),
                        s.parts[i].objects[0],
                    ) by {
                        assert(s.parts[i - 1] == r.parts[i - 1]);
                        if i < last {
                            assert(s.parts[i] == r.parts[i]);
                        } else {
                            assert(s.parts[i] == r.parts[i].with(object));
                            assert(r.parts[i] == r.parts[last]);
                        }
                    }
                },
                _ => {
                    assert forall|i: int| 0 < i < len implies (#[trigger] s.parts[i]) == r.parts[i]
                        && s.parts[i - 1] == r.parts[i - 1] && r.parts[i].objects.len() > 0 by {}
                },
            }
        },
        _ => {
            assert forall|i: int| 0 < i < len implies (#[trigger] s.parts[i]) == r.parts[i]
                && s.parts[i - 1] == r.parts[i - 1] && r.parts[i].objects.len() > 0 by {}
        },
    }
}

proof fn lemma_run_kept(
    bucket_num: u32,
    file_compression: FileCompression,
    inputs: Seq<WriterInput>,
)
    requires
        succeeds(bucket_num, file_compression, inputs),
    ensures
        run(bucket_num, file_compression, inputs).digests_kept(),
        run(bucket_num, file_compression, inputs).parts_filled(),
    decreases inputs.len(),
{
    if inputs.len() > 0 {
        let before = run(bucket_num, file_compression, inputs.drop_last());
        law_run_consistent(bucket_num, file_compression, inputs.drop_last());
        lemma_run_kept(bucket_num, file_compression, inputs.drop_last());
        law_step_keeps_digests(before, inputs.last());
        law_step_keeps_filled(before, inputs.last());
    }
}

/// A part is ended only where the next object does not fit: over every run, each part but the first
/// opens with an object whose blob would have taken the part before it past 128 MiB.
pub proof fn law_parts_end_only_when_full(
    bucket_num: u32,
    file_compression: FileCompression,
    inputs: Seq<WriterInput>,
)
    requires
        succeeds(bucket_num, file_compression, inputs),
        at_rest(run(bucket_num, file_compression, inputs).action),
    ensures
        ({
            let r = run(bucket_num, file_compression, inputs);
            forall|i: int|
                0 < i < r.parts.len() ==> {
                    &&& (#[trigger] r.parts[i]).objects.len() > 0
                    &&& r.parts[i - 1].bytes().len() + r.parts[i].objects[0].blob.frame().len()
                        > 134217728
                }
        }),
{
    lemma_run_kept(bucket_num, file_compression, inputs);
    lemma_at_rest(bucket_num, file_compression, inputs);
}

/// Every object file, and the reference file, is handed on and handed out with exactly the digest
/// that its completion was answered with, whatever the compression.
pub proof fn law_digests_are_those_of_the_files(
    bucket_num: u32,
    file_compression: FileCompression,
    inputs: Seq<WriterInput>,
    files: Seq<FileMetadata>,
)
    requires
        succeeds(bucket_num, file_compression, inputs),
        run(bucket_num, file_compression, inputs).action == WriterActionView::Finished(files),
    ensures
        ({
            let r = run(bucket_num, file_compression, inputs);
            &&& r.disk.sent == files
            &&& r.sealed.len() == files.len()
            &&& files.len() == r.parts.len() + 1
            &&& forall|i: int|
                0 <= i < r.parts.len() ==> {
                    &&& (#[trigger] r.sealed[i]).0 == object_file_name(
                        bucket_num,
                        r.parts[i].part_num,
                    )
                    &&& files[i].sha3_digest == r.sealed[i].1
                }
            &&& r.sealed.last().0 == reference_file_name(bucket_num)
            &&& files.last().sha3_digest == r.sealed.last().1
        }),
{
    law_finished_files(bucket_num, file_compression, inputs, files);
    lemma_run_kept(bucket_num, file_compression, inputs);
    law_run_consistent(bucket_num, file_compression, inputs);
    lemma_at_rest(bucket_num, file_compression, inputs);
    reveal(WriterRun::consistent);
    let r = run(bucket_num, file_compression, inputs);
    assert(files == r.writer.files);
    assert forall|i: int| 0 <= i < r.parts.len() implies {
        &&& (#[trigger] r.sealed[i]).0 == object_file_name(bucket_num, r.parts[i].part_num)
        &&& files[i].sha3_digest == r.sealed[i].1
    } by {
        assert(r.writer.files[i] == files[i]);
    }
    let last = files.len() - 1;
    assert(r.writer.files[last] == files.last());
    assert(r.sealed[last] == r.sealed.last());
}

/// The objects that `inputs` give a writer.
pub open spec fn objects_given(inputs: Seq<WriterInput>) -> Seq<LiveObject>
    decreases inputs.len(),
{
    if inputs.len() == 0 {
        Seq::empty()
    } else {
        match inputs.last() {
            WriterInput::Write(object) => objects_given(inputs.drop_last()).push(object),
            _ => objects_given(inputs.drop_last()),
        }
    }
}

/// Over every run in which everything that was asked for has been carried out, the open files of
/// the writer are as they should be at every point, and so is what it has handed on.
pub proof fn law_run_consistent(
    bucket_num: u32,
    file_compression: FileCompression,
    inputs: Seq<WriterInput>,
)
    requires
        succeeds(bucket_num, file_compression, inputs),
    ensures
        run(bucket_num, file_compression, inputs).consistent(),
        run(bucket_num, file_compression, inputs).given == objects_given(inputs),
        run(bucket_num, file_compression, inputs).writer.bucket_num == bucket_num,
        run(bucket_num, file_compression, inputs).writer.file_compression == file_compression,
    decreases inputs.len(),
{
    reveal(WriterRun::consistent);
    if inputs.len() > 0 {
        law_run_consistent(bucket_num, file_compression, inputs.drop_last());
        law_step_keeps_consistent(
            run(bucket_num, file_compression, inputs.drop_last()),
            inputs.last(),
        );
    }
}

/// The parts of a writer are in files of their own at every point of a run in which no listing
/// gives an object file a number that one has already.
pub proof fn law_run_stored(
    bucket_num: u32,
    file_compression: FileCompression,
    inputs: Seq<WriterInput>,
)
    requires
        succeeds(bucket_num, file_compression, inputs),
        numbers_afresh(bucket_num, file_compression, inputs),
    ensures
        run(bucket_num, file_compression, inputs).parts_stored(),
    decreases inputs.len(),
{
    if inputs.len() > 0 {
        law_run_consistent(bucket_num, file_compression, inputs.drop_last());
        law_run_stored(bucket_num, file_compression, inputs.drop_last());
        law_step_keeps_stored(
            run(bucket_num, file_compression, inputs.drop_last()),
            inputs.last(),
        );
    }
}

/// The writer has written what it was given, or has completed its files.
pub open spec fn at_rest(action: WriterActionView) -> bool {
    action is Opened || action is Written || action is Finished
}

/// The phase of a writer that is through with what it was given.
proof fn lemma_at_rest(
    bucket_num: u32,
    file_compression: FileCompression,
    inputs: Seq<WriterInput>,
)
    requires
        succeeds(bucket_num, file_compression, inputs),
    ensures
        ({
            let r = run(bucket_num, file_compression, inputs);
            &&& r.action is Opened || r.action is Written ==> r.writer.phase is Idle
            &&& r.action is Finished ==> r.writer.phase is Closed
        }),
{
}

/// Whenever the writer is through with what it was given, each object has been put in exactly one
/// part, in the order in which the objects were given; and the reference file holds a header and
/// the references of the objects, in the same order and with a delimiter where one part ends and
/// the next begins.
pub proof fn law_objects_are_referenced(
    bucket_num: u32,
    file_compression: FileCompression,
    inputs: Seq<WriterInput>,
)
    requires
        succeeds(bucket_num, file_compression, inputs),
        at_rest(run(bucket_num, file_compression, inputs).action),
    ensures
        ({
            let r = run(bucket_num, file_compression, inputs);
            &&& objects_of(r.parts) == objects_given(inputs)
            &&& r.disk.files.dom().contains(reference_file_name(bucket_num))
            &&& r.disk.files[reference_file_name(bucket_num)] == header(REFERENCE_FILE_MAGIC)
                + references_of(r.parts)
        }),
{
    reveal(WriterRun::consistent);
    law_run_consistent(bucket_num, file_compression, inputs);
    lemma_at_rest(bucket_num, file_compression, inputs);
}

/// Whenever the writer is through with what it was given, the file of each part holds a header and
/// the blobs of the part's objects, which together are all objects, and no two parts share a file:
/// provided that no listing of the directory gave an object file a number that one had already.
pub proof fn law_objects_are_stored(
    bucket_num: u32,
    file_compression: FileCompression,
    inputs: Seq<WriterInput>,
)
    requires
        succeeds(bucket_num, file_compression, inputs),
        numbers_afresh(bucket_num, file_compression, inputs),
        at_rest(run(bucket_num, file_compression, inputs).action),
    ensures
        ({
            let r = run(bucket_num, file_compression, inputs);
            &&& objects_of(r.parts) == objects_given(inputs)
            &&& forall|i: int|
                0 <= i < r.parts.len() ==> {
                    &&& r.disk.files.dom().contains(
                        object_file_name(bucket_num, (#[trigger] r.parts[i]).part_num),
                    )
                    &&& r.disk.files[object_file_name(bucket_num, r.parts[i].part_num)] == header(
                        OBJECT_FILE_MAGIC,
                    ) + frames(r.parts[i].objects)
                }
            &&& forall|i: int, j: int|
                0 <= i < j < r.parts.len() ==> object_file_name(
                    bucket_num,
                    (#[trigger] r.parts[i]).part_num,
                ) != object_file_name(bucket_num, (#[trigger] r.parts[j]).part_num)
        }),
{
    reveal(WriterRun::consistent);
    law_run_consistent(bucket_num, file_compression, inputs);
    law_run_stored(bucket_num, file_compression, inputs);
    lemma_at_rest(bucket_num, file_compression, inputs);
    let r = run(bucket_num, file_compression, inputs);
    assert forall|i: int, j: int| 0 <= i < j < r.parts.len() implies object_file_name(
        bucket_num,
        (#[trigger] r.parts[i]).part_num,
    ) != object_file_name(bucket_num, (#[trigger] r.parts[j]).part_num) by {
        lemma_names(bucket_num, r.parts[i].part_num, r.parts[j].part_num);
    }
}

/// What is written to an object file keeps within the limit, unless it is a single object: so it
/// is of every part, and of the file that is open.
pub proof fn law_object_files_keep_within_limit(
    bucket_num: u32,
    file_compression: FileCompression,
    inputs: Seq<WriterInput>,
)
    requires
        succeeds(bucket_num, file_compression, inputs),
        at_rest(run(bucket_num, file_compression, inputs).action),
    ensures
        ({
            let r = run(bucket_num, file_compression, inputs);
            &&& forall|i: int|
                0 <= i < r.parts.len() ==> (#[trigger] r.parts[i]).bytes().len() <= FILE_MAX_BYTES
                    || r.parts[i].objects.len() == 1
            &&& r.parts.len() > 0
            &&& r.disk.object == object_file_name(bucket_num, r.parts.last().part_num)
            &&& r.disk.files[r.disk.object] == r.parts.last().bytes()
            &&& r.disk.files[r.disk.object].len() <= FILE_MAX_BYTES || r.parts.last().objects.len()
                == 1
        }),
{
    reveal(WriterRun::consistent);
    law_run_consistent(bucket_num, file_compression, inputs);
    lemma_at_rest(bucket_num, file_compression, inputs);
    let r = run(bucket_num, file_compression, inputs);
    assert(r.parts.last() == r.parts[r.parts.len() - 1]);
}

/// The highest part number in a listing with exactly the object files of a writer whose parts are
/// numbered from 1 on is the number of its parts.
proof fn lemma_exact_listing(r: WriterRun, names: Seq<String>)
    requires
        r.parts_numbered(),
        r.lists_own(names),
    ensures
        highest_part(names, r.writer.bucket_num) == r.parts.len(),
{
    let bucket_num = r.writer.bucket_num;
    let highest = highest_part(names, bucket_num);
    law_highest_part(names, bucket_num);
    if r.parts.len() > 0 {
        let last = r.parts[r.parts.len() - 1];
        law_object_file_name_reads_back(bucket_num, last.part_num, bucket_num);
        assert(is_listed(names, r.name_of(last)));
        let k = choose|k: int| 0 <= k < names.len() && (#[trigger] names[k])@ == r.name_of(last);
        assert(reading(names[k]@, bucket_num) == NameReading::Part(last.part_num));
    }
    if highest > 0 {
        let k = choose|k: int|
            0 <= k < names.len() && reading((#[trigger] names[k])@, bucket_num)
                == NameReading::Part(highest as u32);
        let i = choose|i: int|
            0 <= i < r.parts.len() && names[k]@ == r.name_of(#[trigger] r.parts[i]);
        law_object_file_name_reads_back(bucket_num, r.parts[i].part_num, bucket_num);
    }
}

/// A step creates no files but those of the parts and the reference file.
proof fn lemma_step_keeps_known(r: WriterRun, event: WriterEvent)
    requires
        r.consistent(),
        r.files_known(),
        r.admits(WriterInput::Event(event)),
    ensures
        r.next(WriterInput::Event(event)).files_known(),
{
    reveal(WriterRun::consistent);
    let s = r.next(WriterInput::Event(event));
    let bucket_num = r.writer.bucket_num;
    let len = r.parts.len() as int;
    assert forall|name: Seq<char>| #[trigger] s.disk.files.dom().contains(name) implies name
        == reference_file_name(bucket_num) || exists|i: int|
        0 <= i < s.parts.len() && name == s.name_of(#[trigger] s.parts[i]) by {
        if r.disk.files.dom().contains(name) {
            if name != reference_file_name(bucket_num) {
                let i = choose|i: int| 0 <= i < len && name == r.name_of(#[trigger] r.parts[i]);
                assert(name == s.name_of(s.parts[i]));
            }
        } else {
            match r.writer.phase {
                WriterPhase::OpeningObject { .. } | WriterPhase::CutCreate { .. } => {
                    assert(name == s.name_of(s.parts[len]));
                },
                _ => {},
            }
        }
    }
}

/// A step keeps the numbers of the parts rising, and gives no number twice, as long as a listing
/// has the last object file.
pub proof fn law_step_keeps_rising(r: WriterRun, input: WriterInput)
    requires
        r.consistent(),
        r.parts_rising(),
        r.admits(input),
        input matches WriterInput::Event(event) ==> r.shows_last(event),
    ensures
        r.next(input).parts_rising(),
        input matches WriterInput::Event(event) ==> r.is_fresh(event),
{
    reveal(WriterRun::consistent);
    let s = r.next(input);
    let bucket_num = r.writer.bucket_num;
    let len = r.parts.len() as int;
    match input {
        WriterInput::Event(event) => {
            lemma_step_keeps_known(r, event);
            if let WriterEvent::Listed(names) = event {
                if let Ok(part_num) = next_part(names@, bucket_num) {
                    lemma_last_listed(r, names, part_num);
                }
            }
            assert forall|i: int, j: int| 0 <= i < j < s.parts.len() implies (
            #[trigger] s.parts[i]).part_num < (#[trigger] s.parts[j]).part_num by {
                assert(s.parts[i].part_num == r.parts[i].part_num);
                if j < len {
                    assert(s.parts[j].part_num == r.parts[j].part_num);
                }
            }
            if let WriterPhase::CutCreate { part_num, .. } = s.writer.phase {
                assert forall|i: int| 0 <= i < s.parts.len() implies (
                #[trigger] s.parts[i]).part_num < part_num by {
                    assert(s.parts[i] == r.parts[i]);
                }
            }
            assert(s.files_known());
        },
        WriterInput::Write(object) => {
            lemma_input_keeps_rising(r, object);
        },
        WriterInput::Done => {
            lemma_input_keeps_rising(r, arbitrary());
        },
    }
}

/// That a writer is given an object, or told that there is none, changes nothing in its parts.
pub proof fn lemma_input_keeps_rising(r: WriterRun, object: LiveObject)
    requires
        r.parts_rising(),
    ensures
        r.next(WriterInput::Write(object)).parts_rising(),
        r.next(WriterInput::Done).parts_rising(),
{
    lemma_same_files_known(r, r.next(WriterInput::Write(object)));
    lemma_same_files_known(r, r.next(WriterInput::Done));
}

proof fn lemma_same_files_known(r: WriterRun, s: WriterRun)
    requires
        r.files_known(),
        s.disk == r.disk,
        s.parts == r.parts,
        s.writer.bucket_num == r.writer.bucket_num,
    ensures
        s.files_known(),
{
    assert forall|name: Seq<char>| #[trigger] s.disk.files.dom().contains(name) implies name
        == reference_file_name(s.writer.bucket_num) || exists|i: int|
        0 <= i < s.parts.len() && name == s.name_of(#[trigger] s.parts[i]) by {
        assert(r.disk.files.dom().contains(name));
        if name != reference_file_name(r.writer.bucket_num) {
            let i = choose|i: int|
                0 <= i < r.parts.len() && name == r.name_of(#[trigger] r.parts[i]);
            assert(name == s.name_of(s.parts[i]));
        }
    }
}

/// A listing with the last object file gives a number above those of all parts, which no file has.
proof fn lemma_last_listed(r: WriterRun, names: Vec<String>, part_num: u32)
    requires
        r.parts_rising(),
        r.writer.admits(WriterEvent::Listed(names)),
        r.shows_last(WriterEvent::Listed(names)),
        next_part(names@, r.writer.bucket_num) == Ok::<u32, NameError>(part_num),
    ensures
        forall|i: int| 0 <= i < r.parts.len() ==> (#[trigger] r.parts[i]).part_num < part_num,
        r.is_fresh(WriterEvent::Listed(names)),
{
    let bucket_num = r.writer.bucket_num;
    law_next_part_is_new(names@, bucket_num, part_num);
    if r.parts.len() > 0 {
        let last = r.parts.len() - 1;
        let name = r.name_of(r.parts.last());
        assert(is_listed(names@, name));
        let k = choose|k: int| 0 <= k < names@.len() && (#[trigger] names@[k])@ == name;
        assert(names@[k]@ == object_file_name(bucket_num, r.parts[last].part_num));
        assert forall|i: int| 0 <= i < r.parts.len() implies (#[trigger] r.parts[i]).part_num
            < part_num by {
            if i < last {
                assert(r.parts[i].part_num < r.parts[last].part_num);
            }
        }
    }
    let name = object_file_name(bucket_num, part_num);
    if r.disk.files.dom().contains(name) {
        lemma_names(bucket_num, part_num, 0);
        let i = choose|i: int| 0 <= i < r.parts.len() && name == r.name_of(#[trigger] r.parts[i]);
        lemma_names(bucket_num, part_num, r.parts[i].part_num);
    }
}

/// As long as the last object file is still in the directory whenever that is listed, the numbers
/// of the parts rise, and no number comes up twice.
pub proof fn law_last_part_listed_is_enough(
    bucket_num: u32,
    file_compression: FileCompression,
    inputs: Seq<WriterInput>,
)
    requires
        succeeds(bucket_num, file_compression, inputs),
        lists_last(bucket_num, file_compression, inputs),
    ensures
        run(bucket_num, file_compression, inputs).parts_rising(),
        numbers_afresh(bucket_num, file_compression, inputs),
    decreases inputs.len(),
{
    if inputs.len() > 0 {
        law_last_part_listed_is_enough(bucket_num, file_compression, inputs.drop_last());
        law_run_consistent(bucket_num, file_compression, inputs.drop_last());
        law_step_keeps_rising(
            run(bucket_num, file_compression, inputs.drop_last()),
            inputs.last(),
        );
    }
}

/// A step keeps the parts numbered from 1 on, and gives no number twice, as long as a listing has
/// the object files that the writer has created and no others of its bucket.
pub proof fn law_step_keeps_numbered(r: WriterRun, input: WriterInput)
    requires
        r.consistent(),
        r.parts_numbered(),
        r.admits(input),
        input matches WriterInput::Event(event) ==> r.is_exact(event),
    ensures
        r.next(input).parts_numbered(),
        input matches WriterInput::Event(event) ==> r.is_fresh(event),
{
    reveal(WriterRun::consistent);
    let s = r.next(input);
    let bucket_num = r.writer.bucket_num;
    let len = r.parts.len() as int;
    match input {
        WriterInput::Event(event) => {
            if let WriterEvent::Listed(names) = event {
                lemma_exact_listing(r, names@);
                if len > 0 {
                    assert(is_listed(names@, r.name_of(r.parts[len - 1])));
                }
                if let Ok(part_num) = next_part(names@, bucket_num) {
                    lemma_last_listed(r, names, part_num);
                }
            }
            lemma_step_keeps_known(r, event);
            assert forall|i: int| 0 <= i < s.parts.len() implies (#[trigger] s.parts[i]).part_num
                == i + 1 by {
                if i < len {
                    assert(s.parts[i].part_num == r.parts[i].part_num);
                }
            }
        },
        WriterInput::Write(object) => {
            lemma_input_keeps_numbered(r, object);
        },
        WriterInput::Done => {
            lemma_input_keeps_numbered(r, arbitrary());
        },
    }
}

/// That a writer is given an object, or told that there is none, changes nothing in its parts.
pub proof fn lemma_input_keeps_numbered(r: WriterRun, object: LiveObject)
    requires
        r.parts_numbered(),
    ensures
        r.next(WriterInput::Write(object)).parts_numbered(),
        r.next(WriterInput::Done).parts_numbered(),
{
    lemma_same_files_known(r, r.next(WriterInput::Write(object)));
    lemma_same_files_known(r, r.next(WriterInput::Done));
}

/// A writer that is opened in a directory without object files of its bucket, from which none is
/// removed, numbers its object files 1, 2 and so on. So no number comes up twice.
pub proof fn law_parts_are_numbered_in_turn(
    bucket_num: u32,
    file_compression: FileCompression,
    inputs: Seq<WriterInput>,
)
    requires
        succeeds(bucket_num, file_compression, inputs),
        lists_exactly(bucket_num, file_compression, inputs),
    ensures
        ({
            let r = run(bucket_num, file_compression, inputs);
            &&& forall|i: int|
                0 <= i < r.parts.len() ==> (#[trigger] r.parts[i]).part_num == i + 1
            &&& numbers_afresh(bucket_num, file_compression, inputs)
        }),
{
    lemma_run_numbered(bucket_num, file_compression, inputs);
}

proof fn lemma_run_numbered(
    bucket_num: u32,
    file_compression: FileCompression,
    inputs: Seq<WriterInput>,
)
    requires
        succeeds(bucket_num, file_compression, inputs),
        lists_exactly(bucket_num, file_compression, inputs),
    ensures
        run(bucket_num, file_compression, inputs).parts_numbered(),
        numbers_afresh(bucket_num, file_compression, inputs),
    decreases inputs.len(),
{
    if inputs.len() > 0 {
        lemma_run_numbered(bucket_num, file_compression, inputs.drop_last());
        law_run_consistent(bucket_num, file_compression, inputs.drop_last());
        law_step_keeps_numbered(
            run(bucket_num, file_compression, inputs.drop_last()),
            inputs.last(),
        );
    }
}

/// A writer that is done hands out its object files, in order and with nothing left out, and then
/// its reference file; and these are the files, in this order, that it has handed on to be
/// uploaded.
pub proof fn law_finished_files(
    bucket_num: u32,
    file_compression: FileCompression,
    inputs: Seq<WriterInput>,
    files: Seq<FileMetadata>,
)
    requires
        succeeds(bucket_num, file_compression, inputs),
        run(bucket_num, file_compression, inputs).action == WriterActionView::Finished(files),
    ensures
        ({
            let r = run(bucket_num, file_compression, inputs);
            &&& r.disk.sent == files
            &&& files.len() == r.parts.len() + 1
            &&& forall|i: int|
                0 <= i < r.parts.len() ==> {
                    &&& (#[trigger] files[i]).file_type == FileType::Object
                    &&& files[i].name() == object_file_name(bucket_num, r.parts[i].part_num)
                    &&& files[i].bucket_num == bucket_num
                    &&& files[i].part_num == r.parts[i].part_num
                    &&& files[i].file_compression == file_compression
                }
            &&& files.last().file_type == FileType::Reference
            &&& files.last().name() == reference_file_name(bucket_num)
            &&& files.last().bucket_num == bucket_num
            &&& files.last().part_num == 0
            &&& files.last().file_compression == file_compression
        }),
{
    reveal(WriterRun::consistent);
    law_run_consistent(bucket_num, file_compression, inputs);
    lemma_at_rest(bucket_num, file_compression, inputs);
    let r = run(bucket_num, file_compression, inputs);
    assert forall|i: int| 0 <= i < r.parts.len() implies {
        &&& (#[trigger] files[i]).file_type == FileType::Object
        &&& files[i].name() == object_file_name(bucket_num, r.parts[i].part_num)
        &&& files[i].bucket_num == bucket_num
        &&& files[i].part_num == r.parts[i].part_num
        &&& files[i].file_compression == file_compression
    } by {
        assert(is_metadata_of(r.writer.files[i], r.writer, r.parts[i]));
    }
}

/// An object that the object file has room for is written in two steps: its blob, then its
/// reference.
pub proof fn law_write_without_cut(w: WriterView, object: LiveObject)
    requires
        w.phase is Idle,
        !w.must_cut(object),
    ensures
        ({
            let (w1, a1) = w.on_write(object);
            let (w2, a2) = w1.on_event(WriterEvent::Done);
            let (w3, a3) = w2.on_event(WriterEvent::Done);
            &&& a1 == WriterActionView::AppendObject(object.blob.frame())
            &&& a2 == WriterActionView::AppendReference(object.reference.row())
            &&& a3 == WriterActionView::Written
            &&& w3 == (WriterView { n: w.n + object.blob.frame().len(), ..w })
        }),
{
}

/// For an object that the object file has no room for, that file is completed and handed on first,
/// a delimiter is put in the reference file, and a file with the next part number is created.
pub proof fn law_write_with_cut(
    w: WriterView,
    object: LiveObject,
    digest: [u8; SHA3_BYTES],
    names: Vec<String>,
    part_num: u32,
    written: usize,
)
    requires
        w.phase is Idle,
        w.sending,
        w.must_cut(object),
        next_part(names@, w.bucket_num) == Ok::<u32, NameError>(part_num),
    ensures
        ({
            let file = w.object_metadata(digest);
            let (w1, a1) = w.on_write(object);
            let (w2, a2) = w1.on_event(WriterEvent::Sealed(digest));
            let (w3, a3) = w2.on_event(WriterEvent::Done);
            let (w4, a4) = w3.on_event(WriterEvent::Done);
            let (w5, a5) = w4.on_event(WriterEvent::Listed(names));
            let (w6, a6) = w5.on_event(WriterEvent::Created { written });
            let (w7, a7) = w6.on_event(WriterEvent::Done);
            let (w8, a8) = w7.on_event(WriterEvent::Done);
            &&& a1 == w.seal_object()
            &&& a2 == WriterActionView::Send(file)
            &&& a3 == WriterActionView::AppendReference(part_delimiter())
            &&& a4 == WriterActionView::ListDirectory
            &&& a5 == w.create_object(part_num)
            &&& a6 == WriterActionView::AppendObject(object.blob.frame())
            &&& a7 == WriterActionView::AppendReference(object.reference.row())
            &&& a8 == WriterActionView::Written
            &&& w8 == (WriterView {
                current_part_num: part_num,
                n: (written + object.blob.frame().len()) as nat,
                files: w.files.push(file),
                ..w
            })
        }),
{
}

/// At the end the object file is completed and handed on, then the reference file.
pub proof fn law_done(
    w: WriterView,
    digest: [u8; SHA3_BYTES],
    reference_digest: [u8; SHA3_BYTES],
)
    requires
        w.phase is Idle,
        w.sending,
    ensures
        ({
            let file = w.object_metadata(digest);
            let reference = w.reference_metadata(reference_digest);
            let (w1, a1) = w.on_done();
            let (w2, a2) = w1.on_event(WriterEvent::Sealed(digest));
            let (w3, a3) = w2.on_event(WriterEvent::Done);
            let (w4, a4) = w3.on_event(WriterEvent::Sealed(reference_digest));
            let (w5, a5) = w4.on_event(WriterEvent::Done);
            &&& a1 == w.seal_object()
            &&& a2 == WriterActionView::Send(file)
            &&& a3 == w.seal_reference()
            &&& a4 == WriterActionView::Send(reference)
            &&& a5 == WriterActionView::Finished(w.files.push(file).push(reference))
            &&& w5.phase is Closed
            &&& !w5.sending
        }),
{
}

/// No object of the parts has a reference that is all zeros.
pub open spec fn no_row_is_delimiter(parts: Seq<Part>) -> bool {
    forall|i: int, k: int|
        0 <= i < parts.len() && 0 <= k < parts[i].objects.len() ==> (
        #[trigger] parts[i].objects[k]).reference.row() != part_delimiter()
}

/// The last part without its last object.
spec fn without_last(parts: Seq<Part>) -> Seq<Part> {
    parts.drop_last().push(
        Part { objects: parts.last().objects.drop_last(), ..parts.last() },
    )
}

proof fn lemma_without_last(parts: Seq<Part>)
    requires
        parts.len() > 0,
        parts.last().objects.len() > 0,
    ensures
        references_of(parts) == references_of(without_last(parts))
            + parts.last().objects.last().reference.row(),
        parts == without_last(parts).drop_last().push(
            without_last(parts).last().with(parts.last().objects.last()),
        ),
{
    let shorter = without_last(parts);
    let object = parts.last().objects.last();
    assert(shorter.last().with(object).objects =~= parts.last().objects);
    assert(shorter.drop_last().push(shorter.last().with(object)) =~= parts);
    lemma_part_with(shorter, object);
}

proof fn lemma_empty_last(parts: Seq<Part>)
    requires
        parts.len() > 0,
        parts.last().objects.len() == 0,
    ensures
        references_of(parts) == if parts.len() == 1 {
            Seq::empty()
        } else {
            references_of(parts.drop_last()) + part_delimiter()
        },
{
    if parts.len() > 1 {
        assert(references_of(parts) =~= references_of(parts.drop_last()) + part_delimiter());
    }
}

/// The last entry of two equal reference files is the same, and so is what stands before it.
proof fn lemma_split_entry(a: Seq<u8>, x: Seq<u8>, b: Seq<u8>, y: Seq<u8>)
    requires
        a + x == b + y,
        x.len() == y.len(),
    ensures
        a == b,
        x == y,
{
    assert((a + x).len() == a.len() + x.len());
    assert((b + y).len() == b.len() + y.len());
    assert(a =~= (a + x).take(a.len() as int));
    assert(b =~= (b + y).take(a.len() as int));
    assert(x =~= (a + x).skip(a.len() as int));
    assert(y =~= (b + y).skip(a.len() as int));
}

/// A reference file tells which objects are in which part, as long as no object has a reference
/// that is all zeros.
pub proof fn law_reference_file_determines(p: Seq<Part>, q: Seq<Part>)
    requires
        p.len() > 0,
        q.len() > 0,
        no_row_is_delimiter(p),
        no_row_is_delimiter(q),
        references_of(p) == references_of(q),
    ensures
        p.len() == q.len(),
        forall|i: int|
            0 <= i < p.len() ==> rows((#[trigger] p[i]).objects) == rows(q[i].objects)
                && p[i].objects.len() == q[i].objects.len(),
    decreases p.len(), p.last().objects.len(),
{
    let lp = p.last().objects;
    let lq = q.last().objects;
    assert(p.last() == p[p.len() - 1]);
    assert(q.last() == q[q.len() - 1]);
    if lp.len() > 0 {
        law_row_determines(lp.last().reference, lp.last().reference);
        lemma_without_last(p);
    } else {
        lemma_empty_last(p);
    }
    if lq.len() > 0 {
        law_row_determines(lq.last().reference, lq.last().reference);
        lemma_without_last(q);
    } else {
        lemma_empty_last(q);
    }
    if lp.len() > 0 && lq.len() > 0 {
        let sp = without_last(p);
        let sq = without_last(q);
        lemma_split_entry(
            references_of(sp),
            lp.last().reference.row(),
            references_of(sq),
            lq.last().reference.row(),
        );
        assert forall|i: int, k: int|
            0 <= i < sp.len() && 0 <= k < sp[i].objects.len() implies (
        #[trigger] sp[i].objects[k]).reference.row() != part_delimiter() by {
            assert(sp[i].objects[k] == p[i].objects[k]);
        }
        assert forall|i: int, k: int|
            0 <= i < sq.len() && 0 <= k < sq[i].objects.len() implies (
        #[trigger] sq[i].objects[k]).reference.row() != part_delimiter() by {
            assert(sq[i].objects[k] == q[i].objects[k]);
        }
        law_reference_file_determines(sp, sq);
        assert(sp[sp.len() - 1].objects == lp.drop_last());
        assert(sq[sq.len() - 1].objects == lq.drop_last());
        assert forall|i: int| 0 <= i < p.len() implies rows((#[trigger] p[i]).objects) == rows(
            q[i].objects,
        ) && p[i].objects.len() == q[i].objects.len() by {
            assert(rows(sp[i].objects) == rows(sq[i].objects));
            if i < p.len() - 1 {
                assert(sp[i] == p[i]);
                assert(sq[i] == q[i]);
            }
        }
    } else if lp.len() == 0 && lq.len() == 0 {
        if p.len() > 1 && q.len() > 1 {
            let sp = p.drop_last();
            let sq = q.drop_last();
            lemma_split_entry(
                references_of(sp),
                part_delimiter(),
                references_of(sq),
                part_delimiter(),
            );
            assert forall|i: int, k: int|
                0 <= i < sp.len() && 0 <= k < sp[i].objects.len() implies (
            #[trigger] sp[i].objects[k]).reference.row() != part_delimiter() by {
                assert(sp[i].objects[k] == p[i].objects[k]);
            }
            assert forall|i: int, k: int|
                0 <= i < sq.len() && 0 <= k < sq[i].objects.len() implies (
            #[trigger] sq[i].objects[k]).reference.row() != part_delimiter() by {
                assert(sq[i].objects[k] == q[i].objects[k]);
            }
            law_reference_file_determines(sp, sq);
            assert forall|i: int| 0 <= i < p.len() implies rows((#[trigger] p[i]).objects) == rows(
                q[i].objects,
            ) && p[i].objects.len() == q[i].objects.len() by {
                if i < p.len() - 1 {
                    assert(sp[i] == p[i]);
                    assert(sq[i] == q[i]);
                }
            }
        } else if p.len() > 1 {
            assert(references_of(p).len() >= OBJECT_REF_BYTES);
        } else if q.len() > 1 {
            assert(references_of(q).len() >= OBJECT_REF_BYTES);
        }
    } else if lp.len() > 0 {
        assert(lp.last() == p[p.len() - 1].objects[lp.len() - 1]);
        if q.len() > 1 {
            lemma_split_entry(
                references_of(without_last(p)),
                lp.last().reference.row(),
                references_of(q.drop_last()),
                part_delimiter(),
            );
        } else {
            assert(references_of(p).len() >= OBJECT_REF_BYTES);
        }
    } else {
        assert(lq.last() == q[q.len() - 1].objects[lq.len() - 1]);
        if p.len() > 1 {
            lemma_split_entry(
                references_of(p.drop_last()),
                part_delimiter(),
                references_of(without_last(q)),
                lq.last().reference.row(),
            );
        } else {
            assert(references_of(q).len() >= OBJECT_REF_BYTES);
        }
    }
}

} // verus!
