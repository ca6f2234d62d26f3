//! What a reader gets out of the files of a snapshot. The readers here know the file formats and
//! nothing of how the files are written.
use crate::encoding::{
    be_bytes, header, part_delimiter, varint, Blob, LiveObject, ObjectRef,
    BLOB_ENCODING_BYTES, FILE_MAX_BYTES, MAGIC_BYTES, MANIFEST_FILE_MAGIC, OBJECT_DIGEST_BYTES,
    OBJECT_FILE_MAGIC, OBJECT_ID_BYTES, OBJECT_REF_BYTES, REFERENCE_FILE_MAGIC,
    SEQUENCE_NUM_BYTES, SHA3_BYTES,
};
use crate::format_laws::{frames, lemma_frames_first, rows};
use crate::metadata::{FileCompression, FileMetadata, Manifest, ManifestV1, ManifestView};
use crate::names::{object_file_name, reference_file_name};
use crate::writer_laws::{
    at_rest, law_object_files_keep_within_limit, law_objects_are_referenced,
    law_objects_are_stored, numbers_afresh, objects_given, objects_of, references_of, run,
    succeeds, Part, WriterInput,
};
use vstd::arithmetic::power::pow;
use vstd::prelude::*;

verus! {

/// The integer that `bytes` stand for, most significant byte first.
pub open spec fn read_be(bytes: Seq<u8>) -> nat
    decreases bytes.len(),
{
    if bytes.len() == 0 {
        0
    } else {
        read_be(bytes.drop_last()) * 256 + bytes.last() as nat
    }
}

/// An integer that fits in `width` bytes is read back from them.
pub proof fn law_be_bytes_read_back(n: nat, width: nat)
    requires
        n < pow(256, width),
    ensures
        be_bytes(n, width).len() == width,
        read_be(be_bytes(n, width)) == n,
    decreases width,
{
    if width == 0 {
        reveal(pow);
    } else {
        let w = (width - 1) as nat;
        assert(pow(256, width) == 256 * pow(256, w)) by {
            reveal(pow);
        }
        law_be_bytes_read_back(n / 256, w);
        assert(be_bytes(n, width).drop_last() =~= be_bytes(n / 256, w));
    }
}

/// A file header is four bytes, which read as a big-endian integer are the magic number.
pub proof fn law_header_reads_back(magic: u32)
    ensures
        header(magic).len() == 4,
        read_be(header(magic)) == magic,
{
    lemma_powers();
    law_be_bytes_read_back(magic as nat, 4);
}

proof fn lemma_powers()
    ensures
        pow(256, 4) == 0x1_0000_0000,
        pow(256, 8) == 0x1_0000_0000_0000_0000,
{
    reveal_with_fuel(pow, 9);
}

/// The numbers that the file formats rest on.
pub proof fn law_format_constants()
    ensures
        OBJECT_FILE_MAGIC == 0x00B7EC75,
        REFERENCE_FILE_MAGIC == 0xDEADBEEF,
        MANIFEST_FILE_MAGIC == 0x00C0FFEE,
        MAGIC_BYTES == 4,
        OBJECT_ID_BYTES == 32,
        SEQUENCE_NUM_BYTES == 8,
        OBJECT_DIGEST_BYTES == 32,
        OBJECT_REF_BYTES == 72,
        BLOB_ENCODING_BYTES == 1,
        FILE_MAX_BYTES == 128 * 1024 * 1024,
        SHA3_BYTES == 32,
{
}

/// A row of a reference file is 72 bytes: the object id, the version as a big-endian integer, the
/// object digest.
pub proof fn law_row_reads_back(reference: ObjectRef)
    ensures
        reference.row().len() == 72,
        reference.row().subrange(0, 32) == reference.object_id@,
        read_be(reference.row().subrange(32, 40)) == reference.version,
        reference.row().subrange(40, 72) == reference.digest@,
{
    lemma_powers();
    law_be_bytes_read_back(reference.version as nat, 8);
    let row = reference.row();
    assert(row.subrange(0, 32) =~= reference.object_id@);
    assert(row.subrange(32, 40) =~= be_bytes(reference.version as nat, 8));
    assert(row.subrange(40, 72) =~= reference.digest@);
}

/// The delimiter between two parts is 72 zeros.
pub proof fn law_delimiter_is_zeros()
    ensures
        part_delimiter().len() == 72,
        forall|i: int| 0 <= i < 72 ==> #[trigger] part_delimiter()[i] == 0,
{
}

/// The variable-length integer at the front of `bytes`, and how many bytes it takes.
pub open spec fn read_varint(bytes: Seq<u8>) -> Option<(nat, nat)>
    decreases bytes.len(),
{
    if bytes.len() == 0 {
        None
    } else if bytes[0] < 128 {
        Some((bytes[0] as nat, 1))
    } else {
        match read_varint(bytes.skip(1)) {
            Some((high, taken)) => Some(((bytes[0] - 128) as nat + 128 * high, taken + 1)),
            None => None,
        }
    }
}

/// A variable-length integer is read back, whatever follows it.
pub proof fn law_varint_reads_back(n: nat, rest: Seq<u8>)
    ensures
        read_varint(varint(n) + rest) == Some((n, varint(n).len())),
    decreases n,
{
    let bytes = varint(n) + rest;
    if n >= 128 {
        law_varint_reads_back(n / 128, rest);
        assert(bytes.skip(1) =~= varint(n / 128) + rest);
        assert(bytes[0] == (n % 128 + 128) as u8);
    } else {
        assert(bytes[0] == n as u8);
    }
}

/// A blob is read back from its frame byte for byte, whatever follows it: the length of its data,
/// then the byte of its encoding, then the data as they are and nothing more.
pub proof fn law_frame_reads_back(blob: Blob, rest: Seq<u8>)
    ensures
        ({
            let bytes = blob.frame() + rest;
            let len = blob.data@.len();
            let at = varint(len).len() as int;
            &&& read_varint(bytes) == Some((len, at as nat))
            &&& bytes[at] == 1
            &&& bytes.subrange(at + 1, at + 1 + len) == blob.data@
            &&& bytes.skip(at + 1 + len) == rest
            &&& blob.frame().len() == at + 1 + len
            &&& blob.frame().skip(at + 1) == blob.data@
        }),
{
    let bytes = blob.frame() + rest;
    let len = blob.data@.len();
    let at = varint(len).len() as int;
    law_varint_reads_back(len, seq![blob.encoding.tag()] + blob.data@ + rest);
    assert(bytes =~= varint(len) + (seq![blob.encoding.tag()] + blob.data@ + rest));
    assert(bytes.subrange(at + 1, at + 1 + len) =~= blob.data@);
    assert(bytes.skip(at + 1 + len) =~= rest);
    assert(blob.frame().skip(at + 1) =~= blob.data@);
}

/// The blobs in `bytes`, each as its encoding byte and its data, if `bytes` are blobs one behind
/// the other.
pub open spec fn read_blobs(bytes: Seq<u8>) -> Option<Seq<(u8, Seq<u8>)>>
    decreases bytes.len(),
{
    if bytes.len() == 0 {
        Some(Seq::empty())
    } else {
        match read_varint(bytes) {
            Some((len, at)) => if at + 1 + len <= bytes.len() {
                match read_blobs(bytes.skip((at + 1 + len) as int)) {
                    Some(others) => Some(
                        seq![
                            (
                                bytes[at as int],
                                bytes.subrange((at + 1) as int, (at + 1 + len) as int),
                            ),
                        ] + others,
                    ),
                    None => None,
                }
            } else {
                None
            },
            None => None,
        }
    }
}

/// The blobs of `objects`: each with the encoding byte 1, and with its data as they are.
pub open spec fn blobs_of(objects: Seq<LiveObject>) -> Seq<(u8, Seq<u8>)> {
    Seq::new(objects.len(), |i: int| (1u8, objects[i].blob.data@))
}

/// The blobs of objects that stand one behind the other are read back: all of them, in order and
/// byte for byte.
pub proof fn law_frames_read_back(objects: Seq<LiveObject>)
    ensures
        read_blobs(frames(objects)) == Some(blobs_of(objects)),
    decreases objects.len(),
{
    if objects.len() == 0 {
        assert(blobs_of(objects) =~= Seq::empty());
    } else {
        let rest = objects.skip(1);
        lemma_frames_first(objects);
        law_frame_reads_back(objects[0].blob, frames(rest));
        law_frames_read_back(rest);
        assert(blobs_of(objects) =~= seq![(1u8, objects[0].blob.data@)] + blobs_of(rest));
    }
}

/// Entry `k` of a sequence of 72-byte entries.
pub open spec fn entry(bytes: Seq<u8>, k: int) -> Seq<u8> {
    bytes.subrange(72 * k, 72 * k + 72)
}

/// `bytes` are what a reference file holds for `reference`.
pub open spec fn names_object(bytes: Seq<u8>, reference: ObjectRef) -> bool {
    &&& bytes.len() == 72
    &&& bytes.subrange(0, 32) == reference.object_id@
    &&& read_be(bytes.subrange(32, 40)) == reference.version
    &&& bytes.subrange(40, 72) == reference.digest@
}

/// References that stand one behind the other are one entry each, in order.
pub proof fn law_rows_read_back(objects: Seq<LiveObject>)
    ensures
        rows(objects).len() == 72 * objects.len(),
        forall|k: int|
            0 <= k < objects.len() ==> names_object(
                #[trigger] entry(rows(objects), k),
                objects[k].reference,
            ),
    decreases objects.len(),
{
    if objects.len() > 0 {
        let front = objects.drop_last();
        law_rows_read_back(front);
        law_row_reads_back(objects.last().reference);
        assert forall|k: int| 0 <= k < objects.len() implies names_object(
            #[trigger] entry(rows(objects), k),
            objects[k].reference,
        ) by {
            if k < front.len() {
                assert(entry(rows(objects), k) =~= entry(rows(front), k));
                assert(objects[k] == front[k]);
            } else {
                assert(entry(rows(objects), k) =~= objects.last().reference.row());
            }
        }
    }
}

/// How many entries a reference file has before those of part `i`: one for each object of the
/// parts before, and a delimiter behind each of these parts.
pub open spec fn entries_before(parts: Seq<Part>, i: int) -> nat
    decreases i,
{
    if i <= 0 {
        0
    } else {
        entries_before(parts, i - 1) + parts[i - 1].objects.len() + 1
    }
}

proof fn lemma_entries_before(parts: Seq<Part>, shorter: Seq<Part>, i: int)
    requires
        i <= shorter.len() <= parts.len(),
        forall|j: int| 0 <= j < shorter.len() ==> (#[trigger] shorter[j]) == parts[j],
    ensures
        entries_before(parts, i) == entries_before(shorter, i),
    decreases i,
{
    if i > 0 {
        lemma_entries_before(parts, shorter, i - 1);
        assert(shorter[i - 1] == parts[i - 1]);
    }
}

proof fn lemma_entries_rise(parts: Seq<Part>, i: int, j: int)
    requires
        0 <= i < j <= parts.len(),
    ensures
        entries_before(parts, i) + parts[i].objects.len() + 1 <= entries_before(parts, j),
    decreases j,
{
    if i < j - 1 {
        lemma_entries_rise(parts, i, j - 1);
    }
}

/// What stands in a reference file behind its header: an entry for each object, part by part and
/// in order, and an entry of zeros between one part and the next; and nothing more.
pub proof fn law_references_read_back(parts: Seq<Part>)
    requires
        parts.len() > 0,
    ensures
        references_of(parts).len() == 72 * (entries_before(parts, parts.len() as int) - 1),
        forall|i: int, k: int|
            #![trigger parts[i].objects[k]]
            0 <= i < parts.len() && 0 <= k < parts[i].objects.len() ==> names_object(
                entry(references_of(parts), entries_before(parts, i) + k),
                parts[i].objects[k].reference,
            ),
        forall|i: int, b: int|
            #![trigger entry(references_of(parts), entries_before(parts, i) - 1)[b]]
            0 < i < parts.len() && 0 <= b < 72 ==> entry(
                references_of(parts),
                entries_before(parts, i) - 1,
            )[b] == 0,
    decreases parts.len(),
{
    let all = references_of(parts);
    let last = parts.len() - 1;
    let here = rows(parts.last().objects);
    law_rows_read_back(parts.last().objects);
    if parts.len() == 1 {
        assert(entries_before(parts, 0) == 0);
        assert(entries_before(parts, 1) == parts[0].objects.len() + 1);
        assert forall|i: int, k: int|
            #![trigger parts[i].objects[k]]
            0 <= i < parts.len() && 0 <= k < parts[i].objects.len() implies names_object(
            entry(all, entries_before(parts, i) + k),
            parts[i].objects[k].reference,
        ) by {
            assert(names_object(entry(here, k), parts[0].objects[k].reference));
        }
    } else {
        let front = parts.drop_last();
        let before = references_of(front);
        law_references_read_back(front);
        lemma_entries_before(parts, front, last);
        let count = entries_before(parts, last) as int;
        assert(all.len() == before.len() + 72 + here.len());
        assert(before.len() == 72 * (count - 1));
        assert forall|i: int, k: int|
            #![trigger parts[i].objects[k]]
            0 <= i < parts.len() && 0 <= k < parts[i].objects.len() implies names_object(
            entry(all, entries_before(parts, i) + k),
            parts[i].objects[k].reference,
        ) by {
            if i < last {
                lemma_entries_before(parts, front, i);
                lemma_entries_rise(front, i, last);
                let n = entries_before(parts, i) + k;
                assert(front[i] == parts[i]);
                assert(names_object(entry(before, n), front[i].objects[k].reference));
                assert(entry(all, n) =~= entry(before, n));
            } else {
                assert(names_object(entry(here, k), parts[i].objects[k].reference));
                assert(entry(all, count + k) =~= entry(here, k));
            }
        }
        assert forall|i: int, b: int|
            #![trigger entry(all, entries_before(parts, i) - 1)[b]]
            0 < i < parts.len() && 0 <= b < 72 implies entry(
            all,
            entries_before(parts, i) - 1,
        )[b] == 0 by {
            if i < last {
                lemma_entries_before(parts, front, i);
                lemma_entries_rise(front, i, last);
                lemma_entries_rise(front, i - 1, i);
                let n = entries_before(parts, i) - 1;
                assert(entry(all, n) =~= entry(before, n));
                assert(entry(before, entries_before(front, i) - 1)[b] == 0);
            } else {
                assert(entry(all, count - 1)[b] == part_delimiter()[b]);
            }
        }
    }
}

/// Whenever the writer of a bucket is through with what it was given, its reference file can be
/// read: it opens with its magic number, and then has an entry for each object that was given, part
/// by part and in order, and an entry of zeros where one part ends and the next begins; and nothing
/// more.
pub proof fn law_reference_file_reads_back(
    bucket_num: u32,
    file_compression: FileCompression,
    inputs: Seq<WriterInput>,
)
    requires
        succeeds(bucket_num, file_compression, inputs),
        at_rest(run(bucket_num, file_compression, inputs).action),
    ensures
        ({
            let r = run(bucket_num, file_compression, inputs);
            let file = r.disk.files[reference_file_name(bucket_num)];
            let count = entries_before(r.parts, r.parts.len() as int);
            &&& objects_of(r.parts) == objects_given(inputs)
            &&& read_be(file.take(4)) == 0xDEADBEEF
            &&& file.len() == 4 + 72 * (count - 1)
            &&& forall|i: int, k: int|
                #![trigger r.parts[i].objects[k]]
                0 <= i < r.parts.len() && 0 <= k < r.parts[i].objects.len() ==> names_object(
                    entry(file.skip(4), entries_before(r.parts, i) + k),
                    r.parts[i].objects[k].reference,
                )
            &&& forall|i: int, b: int|
                #![trigger entry(file.skip(4), entries_before(r.parts, i) - 1)[b]]
                0 < i < r.parts.len() && 0 <= b < 72 ==> entry(
                    file.skip(4),
                    entries_before(r.parts, i) - 1,
                )[b] == 0
        }),
{
    law_objects_are_referenced(bucket_num, file_compression, inputs);
    law_object_files_keep_within_limit(bucket_num, file_compression, inputs);
    law_header_reads_back(REFERENCE_FILE_MAGIC);
    let r = run(bucket_num, file_compression, inputs);
    let file = r.disk.files[reference_file_name(bucket_num)];
    assert(file.take(4) =~= header(REFERENCE_FILE_MAGIC));
    assert(file.skip(4) =~= references_of(r.parts));
    law_references_read_back(r.parts);
}

/// Whenever the writer of a bucket is through with what it was given, its object files can be read:
/// the file of each part opens with the magic number of object files, and what follows are the
/// blobs of the part's objects, in order and byte for byte; the parts together have all objects
/// that were given, in order. No listing of the directory may have given an object file a number
/// that one had already.
pub proof fn law_object_files_read_back(
    bucket_num: u32,
    file_compression: FileCompression,
    inputs: Seq<WriterInput>,
)
    requires
        succeeds(bucket_num, file_compression, inputs),
        numbers_afresh(bucket_num, file_compression, inputs),
        at_rest(run(bucket_num, file_compression, inputs).action),
    ensures
        ({
            let r = run(bucket_num, file_compression, inputs);
            &&& objects_of(r.parts) == objects_given(inputs)
            &&& forall|i: int|
                0 <= i < r.parts.len() ==> {
                    let file = r.disk.files[object_file_name(
                        bucket_num,
                        (#[trigger] r.parts[i]).part_num,
                    )];
                    &&& read_be(file.take(4)) == 0x00B7EC75
                    &&& read_blobs(file.skip(4)) == Some(blobs_of(r.parts[i].objects))
                }
        }),
{
    law_objects_are_stored(bucket_num, file_compression, inputs);
    law_header_reads_back(OBJECT_FILE_MAGIC);
    let r = run(bucket_num, file_compression, inputs);
    assert forall|i: int| 0 <= i < r.parts.len() implies {
        let file = r.disk.files[object_file_name(bucket_num, (#[trigger] r.parts[i]).part_num)];
        &&& read_be(file.take(4)) == 0x00B7EC75
        &&& read_blobs(file.skip(4)) == Some(blobs_of(r.parts[i].objects))
    } by {
        let file = r.disk.files[object_file_name(bucket_num, r.parts[i].part_num)];
        assert(file.take(4) =~= header(OBJECT_FILE_MAGIC));
        assert(file.skip(4) =~= frames(r.parts[i].objects));
        law_frames_read_back(r.parts[i].objects);
    }
}

/// The manifest of some files lists all of them, one by one and in order, and nothing else; it has
/// the epoch, version 1 and the length of an address.
pub proof fn law_manifest_lists_files(files: Seq<FileMetadata>, epoch: u64)
    ensures
        ({
            let manifest = ManifestView::listing(files, epoch);
            &&& manifest.file_metadata.len() == files.len()
            &&& forall|i: int|
                0 <= i < files.len() ==> #[trigger] manifest.file_metadata[i] == files[i]
            &&& manifest.epoch == epoch
            &&& manifest.snapshot_version == 1
            &&& manifest.address_length == 32
        }),
{
}

/// The view of a manifest has what the manifest has.
pub proof fn law_manifest_view(manifest: ManifestV1)
    ensures
        ({
            let view = Manifest::V1(manifest)@;
            &&& view.snapshot_version == manifest.snapshot_version
            &&& view.address_length == manifest.address_length
            &&& view.file_metadata == manifest.file_metadata@
            &&& view.epoch == manifest.epoch
        }),
{
}

} // verus!
