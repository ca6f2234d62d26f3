//! The bytes of the snapshot files: file headers, object blobs, object references.
use byteorder::{BigEndian, ByteOrder};
use integer_encoding::VarInt;
use vstd::prelude::*;

verus! {

/// First four bytes of an object file.
pub const OBJECT_FILE_MAGIC: u32 = 0x00B7EC75;

/// First four bytes of a reference file.
pub const REFERENCE_FILE_MAGIC: u32 = 0xDEADBEEF;

/// First four bytes of the manifest.
pub const MANIFEST_FILE_MAGIC: u32 = 0x00C0FFEE;

/// Length of the magic number that opens each file.
pub const MAGIC_BYTES: usize = 4;

/// Length of an object id.
pub const OBJECT_ID_BYTES: usize = 32;

/// Length of a sequence number in a reference file.
pub const SEQUENCE_NUM_BYTES: usize = 8;

/// Length of an object digest.
pub const OBJECT_DIGEST_BYTES: usize = 32;

/// Length of one object reference in a reference file.
pub const OBJECT_REF_BYTES: usize = OBJECT_ID_BYTES + SEQUENCE_NUM_BYTES + OBJECT_DIGEST_BYTES;

/// Length of the byte that names a blob's encoding.
pub const BLOB_ENCODING_BYTES: usize = 1;

/// Size that an object file keeps within as long as it holds more than one object.
pub const FILE_MAX_BYTES: usize = 134217728;

/// Length of a SHA3-256 digest.
pub const SHA3_BYTES: usize = 32;

/// The `width` least significant bytes of `n`, most significant byte first.
pub open spec fn be_bytes(n: nat, width: nat) -> Seq<u8>
    decreases width,
{
    if width == 0 {
        Seq::empty()
    } else {
        be_bytes(n / 256, (width - 1) as nat).push((n % 256) as u8)
    }
}

/// `n` in groups of seven bits, least significant group first; every byte but the last has its
/// top bit set.
pub open spec fn varint(n: nat) -> Seq<u8>
    decreases n,
{
    if n < 128 {
        seq![n as u8]
    } else {
        seq![(n % 128 + 128) as u8] + varint(n / 128)
    }
}

/// The header of a file that opens with `magic`.
pub open spec fn header(magic: u32) -> Seq<u8> {
    be_bytes(magic as nat, MAGIC_BYTES as nat)
}

/// `byteorder::BigEndian::write_u32`: overwrites the first four bytes of `buf` with `n`, most
/// significant byte first, and leaves the rest. It panics on a shorter `buf`.
#[verifier::external_body]
fn write_u32(buf: &mut [u8], n: u32)
    requires
        old(buf)@.len() >= 4,
    ensures
        final(buf)@ == be_bytes(n as nat, 4) + old(buf)@.skip(4),
{
    BigEndian::write_u32(buf, n)
}

/// `byteorder::BigEndian::write_u64`: overwrites the first eight bytes of `buf` with `n`, most
/// significant byte first, and leaves the rest. It panics on a shorter `buf`.
#[verifier::external_body]
fn write_u64(buf: &mut [u8], n: u64)
    requires
        old(buf)@.len() >= 8,
    ensures
        final(buf)@ == be_bytes(n as nat, 8) + old(buf)@.skip(8),
{
    BigEndian::write_u64(buf, n)
}

/// `integer_encoding::VarInt::required_space` for `usize`: the length of the variable-length
/// encoding of `n`.
#[verifier::external_body]
fn required_space(n: usize) -> (len: usize)
    ensures
        len == varint(n as nat).len(),
{
    n.required_space()
}

/// `integer_encoding::VarInt::encode_var_vec` for `usize`: the variable-length encoding of `n`.
#[verifier::external_body]
fn encode_var(n: usize) -> (bytes: Vec<u8>)
    ensures
        bytes@ == varint(n as nat),
{
    n.encode_var_vec()
}

/// The header of a file that opens with `magic`.
pub fn file_header(magic: u32) -> (bytes: Vec<u8>)
    ensures
        bytes@ == header(magic),
{
    let mut metab: Vec<u8> = vec![0u8; MAGIC_BYTES];
    write_u32(metab.as_mut_slice(), magic);
    assert(metab@ =~= header(magic)) by {
        lemma_be_bytes_len(magic as nat, 4);
    }
    metab
}

/// What names one version of one object.
#[derive(Clone, Copy, Debug, PartialEq, Eq)]
pub struct ObjectRef {
    pub object_id: [u8; OBJECT_ID_BYTES],
    pub version: u64,
    pub digest: [u8; OBJECT_DIGEST_BYTES],
}

impl ObjectRef {
    /// An object reference as the reference file holds it: id, version, digest.
    pub open spec fn row(self) -> Seq<u8> {
        self.object_id@ + be_bytes(self.version as nat, SEQUENCE_NUM_BYTES as nat) + self.digest@
    }

    /// The bytes that stand for this reference in the reference file.
    pub fn to_row(&self) -> (buf: Vec<u8>)
        ensures
            buf@ == self.row(),
    {
        let mut buf: Vec<u8> = Vec::new();
        buf.extend_from_slice(self.object_id.as_slice());
        let mut version: Vec<u8> = vec![0u8; SEQUENCE_NUM_BYTES];
        write_u64(version.as_mut_slice(), self.version);
        buf.extend_from_slice(version.as_slice());
        buf.extend_from_slice(self.digest.as_slice());
        proof {
            lemma_be_bytes_len(self.version as nat, 8);
            assert(version@ =~= be_bytes(self.version as nat, 8));
            assert(buf@ =~= self.row());
        }
        buf
    }
}

/// What stands in the reference file between the objects of one object file and the next.
pub open spec fn part_delimiter() -> Seq<u8> {
    Seq::new(OBJECT_REF_BYTES as nat, |i: int| 0u8)
}

/// The bytes of [`part_delimiter`].
pub fn reference_delimiter() -> (delim: Vec<u8>)
    ensures
        delim@ == part_delimiter(),
{
    let delim: Vec<u8> = vec![0u8; OBJECT_REF_BYTES];
    assert(delim@ =~= part_delimiter());
    delim
}

/// How the bytes of a blob encode its value.
#[derive(Clone, Copy, Debug, PartialEq, Eq, Structural)]
pub enum Encoding {
    Bcs,
}

impl Encoding {
    /// The byte that names the encoding in an object file.
    pub open spec fn tag(self) -> u8 {
        match self {
            Encoding::Bcs => 1,
        }
    }

    /// The byte that names the encoding in an object file.
    pub fn byte(self) -> (b: u8)
        ensures
            b == self.tag(),
    {
        match self {
            Encoding::Bcs => 1,
        }
    }
}

/// An encoded value.
#[derive(Debug, PartialEq, Eq)]
pub struct Blob {
    pub data: Vec<u8>,
    pub encoding: Encoding,
}

impl Blob {
    /// A blob as an object file holds it: length of the data, encoding, data.
    pub open spec fn frame(self) -> Seq<u8> {
        varint(self.data@.len()) + seq![self.encoding.tag()] + self.data@
    }

    /// The blob, and a file header before it, can be counted in `usize`. Every vector that fits
    /// in memory meets this.
    pub open spec fn countable(self) -> bool {
        MAGIC_BYTES + self.frame().len() <= usize::MAX
    }

    /// Tells whether the blob, and a file header before it, can be counted in `usize`.
    pub fn is_countable(&self) -> (countable: bool)
        ensures
            countable == self.countable(),
    {
        match self.data.len().checked_add(MAGIC_BYTES + BLOB_ENCODING_BYTES) {
            Some(bytes) => bytes.checked_add(required_space(self.data.len())).is_some(),
            None => false,
        }
    }

    /// The number of bytes that the blob takes in an object file.
    pub fn size(&self) -> (blob_size: usize)
        requires
            self.countable(),
        ensures
            blob_size == self.frame().len(),
    {
        let mut blob_size: usize = required_space(self.data.len());
        blob_size += BLOB_ENCODING_BYTES;
        blob_size += self.data.len();
        blob_size
    }

    /// The bytes that stand for the blob in an object file.
    pub fn to_frame(&self) -> (bytes: Vec<u8>)
        ensures
            bytes@ == self.frame(),
    {
        let mut bytes: Vec<u8> = encode_var(self.data.len());
        bytes.push(self.encoding.byte());
        bytes.extend_from_slice(self.data.as_slice());
        assert(bytes@ =~= self.frame());
        bytes
    }
}

/// An object of the live object set.
#[derive(Debug, PartialEq, Eq)]
pub struct LiveObject {
    pub reference: ObjectRef,
    pub blob: Blob,
}

/// An integer in `width` bytes takes `width` bytes.
pub proof fn lemma_be_bytes_len(n: nat, width: nat)
    ensures
        be_bytes(n, width).len() == width,
    decreases width,
{
    if width > 0 {
        lemma_be_bytes_len(n / 256, (width - 1) as nat);
    }
}

} // verus!
