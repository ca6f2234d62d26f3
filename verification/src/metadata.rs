//! What a snapshot says of its own files: the metadata of each, and the manifest that lists them.
use crate::encoding::{OBJECT_ID_BYTES, SHA3_BYTES};
use crate::names::{
    decimal, epoch_dir_name, object_file, object_file_name, reference_file, reference_file_name,
};
use object_store::path::Path;
use vstd::prelude::*;

verus! {

#[derive(Clone, Copy, Debug, PartialEq, Eq, Structural)]
pub enum FileType {
    Object,
    Reference,
}

/// How the files of a snapshot are compressed once they are complete.
#[derive(Clone, Copy, Debug, PartialEq, Eq, Structural)]
pub enum FileCompression {
    Uncompressed,
    Zstd,
}

/// One file of a snapshot.
#[derive(Clone, Copy, Debug, PartialEq, Eq)]
pub struct FileMetadata {
    pub file_type: FileType,
    pub bucket_num: u32,
    pub part_num: u32,
    pub file_compression: FileCompression,
    pub sha3_digest: [u8; SHA3_BYTES],
}

/// A path segment that an object store keeps as it is: letters, digits, `_`, `-` and `.`, and
/// not dots alone.
pub open spec fn is_plain_segment(s: Seq<char>) -> bool {
    &&& s.len() > 0
    &&& forall|i: int| 0 <= i < s.len() ==> is_plain_char(#[trigger] s[i])
    &&& exists|i: int| 0 <= i < s.len() && #[trigger] s[i] != '.'
}

pub open spec fn is_plain_char(c: char) -> bool {
    'a' <= c <= 'z' || 'A' <= c <= 'Z' || '0' <= c <= '9' || c == '_' || c == '-' || c == '.'
}

/// The path of `name` in the directory `dir`.
pub open spec fn path_in(dir: Seq<char>, name: Seq<char>) -> Seq<char> {
    dir + "/"@ + name
}

/// `object_store::path::Path::child`: the path of `part` under `dir`, the two joined by a slash.
/// Both are taken where neither needs escaping, so that the text of the path is that of its
/// segments.
#[verifier::external_body]
fn child(dir: &str, part: &str) -> (path: String)
    requires
        is_plain_segment(dir@),
        is_plain_segment(part@),
    ensures
        path@ == path_in(dir@, part@),
{
    String::from(Path::from(dir).child(part))
}

impl FileMetadata {
    /// The name of the file in its directory.
    pub open spec fn name(self) -> Seq<char> {
        match self.file_type {
            FileType::Object => object_file_name(self.bucket_num, self.part_num),
            FileType::Reference => reference_file_name(self.bucket_num),
        }
    }

    /// The name of the file in its directory.
    pub fn file_name(&self) -> (name: String)
        ensures
            name@ == self.name(),
    {
        match self.file_type {
            FileType::Object => object_file(self.bucket_num, self.part_num),
            FileType::Reference => reference_file(self.bucket_num),
        }
    }

    /// The path of the file under the directory `dir_path` of an object store.
    pub fn file_path(&self, dir_path: &String) -> (path: String)
        requires
            is_plain_segment(dir_path@),
        ensures
            path@ == path_in(dir_path@, self.name()),
    {
        let name = self.file_name();
        proof {
            lemma_file_name_plain(*self);
        }
        child(dir_path.as_str(), name.as_str())
    }
}

/// The path of the manifest under the directory `dir_path` of an object store.
pub fn manifest_path(dir_path: &String) -> (path: String)
    requires
        is_plain_segment(dir_path@),
    ensures
        path@ == path_in(dir_path@, "MANIFEST"@),
{
    proof {
        reveal_strlit("MANIFEST");
        assert("MANIFEST"@[0] != '.');
    }
    child(dir_path.as_str(), "MANIFEST")
}

/// The path of the manifest under the directory `dir_path` of an object store, while it is
/// being created.
pub fn manifest_temporary_path(dir_path: &String) -> (path: String)
    requires
        is_plain_segment(dir_path@),
    ensures
        path@ == path_in(dir_path@, "MANIFEST.tmp"@),
{
    proof {
        reveal_strlit("MANIFEST.tmp");
        assert("MANIFEST.tmp"@[0] != '.');
    }
    child(dir_path.as_str(), "MANIFEST.tmp")
}

#[derive(Debug, PartialEq, Eq)]
pub struct ManifestV1 {
    pub snapshot_version: u8,
    pub address_length: u64,
    pub file_metadata: Vec<FileMetadata>,
    pub epoch: u64,
}

/// What a snapshot consists of.
#[derive(Debug, PartialEq, Eq)]
pub enum Manifest {
    V1(ManifestV1),
}

/// The view of a [`Manifest`].
#[verifier::ext_equal]
pub struct ManifestView {
    pub snapshot_version: u8,
    pub address_length: u64,
    pub file_metadata: Seq<FileMetadata>,
    pub epoch: u64,
}

impl ManifestView {
    /// The manifest of the files `file_metadata` of `epoch`.
    pub open spec fn listing(file_metadata: Seq<FileMetadata>, epoch: u64) -> Self {
        ManifestView {
            snapshot_version: 1,
            address_length: OBJECT_ID_BYTES as u64,
            file_metadata,
            epoch,
        }
    }
}

impl View for Manifest {
    type V = ManifestView;

    open spec fn view(&self) -> ManifestView {
        match *self {
            Manifest::V1(m) => ManifestView {
                snapshot_version: m.snapshot_version,
                address_length: m.address_length,
                file_metadata: m.file_metadata@,
                epoch: m.epoch,
            },
        }
    }
}

impl Manifest {
    /// The manifest of the files `file_metadata` of `epoch`.
    pub fn new(file_metadata: Vec<FileMetadata>, epoch: u64) -> (manifest: Self)
        ensures
            manifest@ == ManifestView::listing(file_metadata@, epoch),
            match manifest {
                Manifest::V1(v1) => {
                    &&& v1.snapshot_version == 1
                    &&& v1.address_length == 32
                    &&& v1.file_metadata@ == file_metadata@
                    &&& v1.epoch == epoch
                },
            },
    {
        Manifest::V1(
            ManifestV1 {
                snapshot_version: 1,
                address_length: OBJECT_ID_BYTES as u64,
                file_metadata,
                epoch,
            },
        )
    }
}

/// Decimal digits need no escaping.
pub proof fn lemma_decimal_plain(n: nat)
    ensures
        decimal(n).len() > 0,
        forall|i: int| 0 <= i < decimal(n).len() ==> '0' <= #[trigger] decimal(n)[i] <= '9',
    decreases n,
{
    if n >= 10 {
        lemma_decimal_plain(n / 10);
    }
}

/// The name of a snapshot file needs no escaping.
proof fn lemma_file_name_plain(file: FileMetadata)
    ensures
        is_plain_segment(file.name()),
{
    lemma_decimal_plain(file.bucket_num as nat);
    lemma_decimal_plain(file.part_num as nat);
    reveal_strlit("_");
    reveal_strlit(".obj");
    reveal_strlit("REFERENCE-");
    let name = file.name();
    assert(name[0] != '.');
}

/// The directory of an epoch needs no escaping.
pub proof fn lemma_epoch_dir_plain(epoch: u64)
    ensures
        is_plain_segment(epoch_dir_name(epoch)),
{
    lemma_decimal_plain(epoch as nat);
    reveal_strlit("epoch_");
    assert(epoch_dir_name(epoch)[0] != '.');
}

} // verus!
