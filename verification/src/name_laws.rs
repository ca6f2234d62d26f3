//! What holds of the names of the snapshot files.
use crate::metadata::{lemma_decimal_plain, path_in, FileMetadata, FileType};
use crate::names::{
    decimal, digit, digits_value, epoch_dir_name, first_fault, highest_part, is_digit,
    is_object_name, next_part, next_part_exists, object_file_name, parsed_u32, reading,
    reference_file_name, temporary_name, unsigned, NameError, NameFault, NameReading,
};
use vstd::prelude::*;

verus! {

/// A number in decimal stands for that number.
pub proof fn law_decimal_reads_back(n: nat)
    ensures
        digits_value(decimal(n)) == n,
        n <= u32::MAX ==> parsed_u32(decimal(n)) == Some(n as u32),
    decreases n,
{
    if n >= 10 {
        law_decimal_reads_back(n / 10);
        assert(decimal(n).drop_last() =~= decimal(n / 10));
    } else {
        let s = seq![digit(n)];
        assert(s.drop_last() =~= Seq::empty());
        assert(digits_value(s.drop_last()) == 0);
    }
    lemma_decimal_plain(n);
    assert(unsigned(decimal(n)) == decimal(n)) by {
        assert('0' <= decimal(n)[0] <= '9');
    }
}

/// The name of an object file says which part of which bucket it holds: read for its own bucket
/// it gives the part back, read for another it is of no interest.
pub proof fn law_object_file_name_reads_back(bucket_num: u32, part_num: u32, bucket: u32)
    ensures
        reading(object_file_name(bucket_num, part_num), bucket) == if bucket == bucket_num {
            NameReading::Part(part_num)
        } else {
            NameReading::Unrelated
        },
{
    reveal_strlit("_");
    reveal_strlit(".obj");
    let b = decimal(bucket_num as nat);
    let p = decimal(part_num as nat);
    let name = object_file_name(bucket_num, part_num);
    let stem = name.take(name.len() - 4);
    assert(name.skip(name.len() - 4) =~= ".obj"@);
    assert(stem =~= b + "_"@ + p);
    lemma_decimal_plain(bucket_num as nat);
    lemma_decimal_plain(part_num as nat);
    let at = b.len() as int;
    assert(stem[at] == '_');
    assert(stem.contains('_'));
    stem.index_of_first_ensures('_');
    let first = stem.index_of_first('_').unwrap();
    assert(first == at) by {
        if first < at {
            assert(stem[first] == b[first]);
        }
    }
    assert(stem.take(at) =~= b);
    assert(stem.skip(at + 1) =~= p);
    law_decimal_reads_back(bucket_num as nat);
    law_decimal_reads_back(part_num as nat);
}

/// No two parts share a file.
pub proof fn law_object_file_names_differ(b1: u32, p1: u32, b2: u32, p2: u32)
    requires
        object_file_name(b1, p1) == object_file_name(b2, p2),
    ensures
        b1 == b2 && p1 == p2,
{
    law_object_file_name_reads_back(b1, p1, b1);
    law_object_file_name_reads_back(b2, p2, b1);
}

/// No two buckets share a reference file.
pub proof fn law_reference_file_names_differ(b1: u32, b2: u32)
    requires
        reference_file_name(b1) == reference_file_name(b2),
    ensures
        b1 == b2,
{
    let d1 = decimal(b1 as nat);
    let d2 = decimal(b2 as nat);
    assert(d1 =~= reference_file_name(b1).skip("REFERENCE-"@.len() as int));
    assert(d2 =~= reference_file_name(b2).skip("REFERENCE-"@.len() as int));
    law_decimal_reads_back(b1 as nat);
    law_decimal_reads_back(b2 as nat);
}

/// No two epochs share a directory.
pub proof fn law_epoch_dirs_differ(e1: u64, e2: u64)
    requires
        epoch_dir_name(e1) == epoch_dir_name(e2),
    ensures
        e1 == e2,
{
    let d1 = decimal(e1 as nat);
    let d2 = decimal(e2 as nat);
    assert(d1 =~= epoch_dir_name(e1).skip("epoch_"@.len() as int));
    assert(d2 =~= epoch_dir_name(e2).skip("epoch_"@.len() as int));
    law_decimal_reads_back(e1 as nat);
    law_decimal_reads_back(e2 as nat);
}

/// Reference files, files that have not got their own name yet, and the manifest are never taken
/// for object files.
pub proof fn law_other_files_are_no_parts(bucket_num: u32, name: Seq<char>, bucket: u32)
    ensures
        reading(reference_file_name(bucket_num), bucket) == NameReading::Unrelated,
        reading(temporary_name(name), bucket) == NameReading::Unrelated,
        reading("MANIFEST"@, bucket) == NameReading::Unrelated,
{
    reveal_strlit(".obj");
    reveal_strlit(".tmp");
    reveal_strlit("MANIFEST");
    let reference = reference_file_name(bucket_num);
    lemma_decimal_plain(bucket_num as nat);
    let d = decimal(bucket_num as nat);
    assert(reference.last() == d.last());
    assert('0' <= d[d.len() - 1] <= '9');
    if is_object_name(reference) {
        assert(reference.skip(reference.len() - 4)[3] == 'j');
    }
    let tmp = temporary_name(name);
    assert(tmp.last() == 'p');
    if is_object_name(tmp) {
        assert(tmp.skip(tmp.len() - 4)[3] == 'j');
    }
    if is_object_name("MANIFEST"@) {
        assert("MANIFEST"@.skip("MANIFEST"@.len() - 4)[3] == 'j');
    }
}

/// The highest part number of a bucket is that of a file of the bucket, or 0, and no file of the
/// bucket has a higher one.
pub proof fn law_highest_part(names: Seq<String>, bucket: u32)
    ensures
        forall|i: int|
            0 <= i < names.len() ==> match reading((#[trigger] names[i])@, bucket) {
                NameReading::Part(p) => p <= highest_part(names, bucket),
                _ => true,
            },
        highest_part(names, bucket) == 0 || exists|i: int|
            0 <= i < names.len() && reading((#[trigger] names[i])@, bucket) == NameReading::Part(
                highest_part(names, bucket) as u32,
            ),
        highest_part(names, bucket) <= u32::MAX,
    decreases names.len(),
{
    if names.len() > 0 {
        let rest = names.drop_last();
        law_highest_part(rest, bucket);
        assert(forall|i: int| 0 <= i < rest.len() ==> rest[i] == names[i]);
        let before = highest_part(rest, bucket);
        let last = names.len() - 1;
        assert(names[last] == names.last());
        if before != highest_part(names, bucket) {
            assert(reading(names[last]@, bucket) == NameReading::Part(
                highest_part(names, bucket) as u32,
            ));
        } else if before != 0 {
            let i = choose|i: int|
                0 <= i < rest.len() && reading((#[trigger] rest[i])@, bucket) == NameReading::Part(
                    before as u32,
                );
            assert(names[i] == rest[i]);
        }
    }
}

/// A directory is in order for a bucket if and only if none of its files has a faulty name; else
/// the error is that of the first such file.
pub proof fn law_first_fault(names: Seq<String>, bucket: u32)
    ensures
        first_fault(names, bucket) is None <==> forall|i: int|
            0 <= i < names.len() ==> !(reading((#[trigger] names[i])@, bucket) is Faulty),
        first_fault(names, bucket) matches Some(error) ==> exists|i: int|
            {
                &&& 0 <= i < names.len()
                &&& #[trigger] names[i] == error.file_name
                &&& reading(names[i]@, bucket) == NameReading::Faulty(error.fault)
                &&& forall|j: int|
                    0 <= j < i ==> !(reading((#[trigger] names[j])@, bucket) is Faulty)
            },
    decreases names.len(),
{
    if names.len() > 0 {
        let rest = names.drop_last();
        law_first_fault(rest, bucket);
        assert(forall|i: int| 0 <= i < rest.len() ==> rest[i] == names[i]);
        let last = names.len() - 1;
        assert(names[last] == names.last());
        match first_fault(rest, bucket) {
            Some(error) => {
                let i = choose|i: int|
                    {
                        &&& 0 <= i < rest.len()
                        &&& #[trigger] rest[i] == error.file_name
                        &&& reading(rest[i]@, bucket) == NameReading::Faulty(error.fault)
                        &&& forall|j: int|
                            0 <= j < i ==> !(reading((#[trigger] rest[j])@, bucket) is Faulty)
                    };
                assert(names[i] == error.file_name);
                assert(reading(names[i]@, bucket) is Faulty);
                assert forall|j: int| 0 <= j < i implies !(reading(
                    (#[trigger] names[j])@,
                    bucket,
                ) is Faulty) by {
                    assert(names[j] == rest[j]);
                }
            },
            None => {
                assert forall|j: int| 0 <= j < rest.len() implies !(reading(
                    (#[trigger] names[j])@,
                    bucket,
                ) is Faulty) by {
                    assert(names[j] == rest[j]);
                }
            },
        }
    }
}

/// The next object file is a new one: no file in the directory has its name, and its part number
/// is above all that the bucket has there.
pub proof fn law_next_part_is_new(names: Seq<String>, bucket: u32, part_num: u32)
    requires
        next_part(names, bucket) == Ok::<u32, NameError>(part_num),
        highest_part(names, bucket) < u32::MAX,
    ensures
        forall|i: int|
            0 <= i < names.len() ==> (#[trigger] names[i])@ != object_file_name(bucket, part_num),
        forall|i: int, p: u32|
            0 <= i < names.len() && (#[trigger] names[i])@ == #[trigger] object_file_name(bucket, p)
                ==> p < part_num,
{
    law_highest_part(names, bucket);
    assert forall|i: int, p: u32|
        0 <= i < names.len() && (#[trigger] names[i])@ == #[trigger] object_file_name(
            bucket,
            p,
        ) implies p < part_num by {
        law_object_file_name_reads_back(bucket, p, bucket);
        assert(reading(names[i]@, bucket) == NameReading::Part(p));
    }
}

/// The number that the digits `s` write out, most significant digit first.
pub open spec fn read_digits(s: Seq<char>) -> int
    decreases s.len(),
{
    if s.len() == 0 {
        0
    } else {
        read_digits(s.drop_last()) * 10 + (s.last() as int - '0' as int)
    }
}

/// At least one digit, and nothing but digits.
pub open spec fn all_digits(s: Seq<char>) -> bool {
    s.len() > 0 && forall|i: int| 0 <= i < s.len() ==> '0' <= #[trigger] s[i] <= '9'
}

/// `s` is `n` in decimal, without leading zeros.
pub open spec fn is_numeral(s: Seq<char>, n: int) -> bool {
    &&& all_digits(s)
    &&& read_digits(s) == n
    &&& s.len() > 1 ==> s[0] != '0'
}

/// A number in decimal is digits that write it out, without leading zeros.
pub proof fn law_decimal_is_numeral(n: nat)
    ensures
        is_numeral(decimal(n), n as int),
    decreases n,
{
    lemma_decimal_plain(n);
    if n >= 10 {
        law_decimal_is_numeral(n / 10);
        assert(decimal(n).drop_last() =~= decimal(n / 10));
        assert(decimal(n)[0] == decimal(n / 10)[0]);
        if decimal(n / 10).len() == 1 {
            let d = decimal(n / 10);
            assert(d.drop_last() =~= Seq::empty());
            assert(read_digits(d.drop_last()) == 0);
            assert(d.last() == d[0]);
        }
    } else {
        assert(decimal(n).drop_last() =~= Seq::empty());
        assert(read_digits(decimal(n).drop_last()) == 0);
    }
}

/// The object file of a part has the number of the bucket, an underscore, the number of the part
/// and `.obj` for its name.
pub proof fn law_object_file_name_text(bucket_num: u32, part_num: u32)
    ensures
        exists|b: Seq<char>, p: Seq<char>|
            {
                &&& is_numeral(b, bucket_num as int)
                &&& is_numeral(p, part_num as int)
                &&& object_file_name(bucket_num, part_num) == #[trigger] (b + seq!['_'] + p) + seq![
                    '.',
                    'o',
                    'b',
                    'j',
                ]
            },
{
    reveal_strlit("_");
    reveal_strlit(".obj");
    let b = decimal(bucket_num as nat);
    let p = decimal(part_num as nat);
    law_decimal_is_numeral(bucket_num as nat);
    law_decimal_is_numeral(part_num as nat);
    assert("_"@ =~= seq!['_']);
    assert(".obj"@ =~= seq!['.', 'o', 'b', 'j']);
    assert(object_file_name(bucket_num, part_num) =~= (b + seq!['_'] + p) + seq![
        '.',
        'o',
        'b',
        'j',
    ]);
}

/// The reference file of a bucket has `REFERENCE-` and the number of the bucket for its name.
pub proof fn law_reference_file_name_text(bucket_num: u32)
    ensures
        reference_file_name(bucket_num).take(10) == seq![
            'R', 'E', 'F', 'E', 'R', 'E', 'N', 'C', 'E', '-',
        ],
        is_numeral(reference_file_name(bucket_num).skip(10), bucket_num as int),
{
    reveal_strlit("REFERENCE-");
    let name = reference_file_name(bucket_num);
    law_decimal_is_numeral(bucket_num as nat);
    assert(name.take(10) =~= seq!['R', 'E', 'F', 'E', 'R', 'E', 'N', 'C', 'E', '-']);
    assert(name.skip(10) =~= decimal(bucket_num as nat));
}

/// The directory of an epoch has `epoch_` and the epoch for its name.
pub proof fn law_epoch_dir_text(epoch: u64)
    ensures
        epoch_dir_name(epoch).take(6) == seq!['e', 'p', 'o', 'c', 'h', '_'],
        is_numeral(epoch_dir_name(epoch).skip(6), epoch as int),
{
    reveal_strlit("epoch_");
    let name = epoch_dir_name(epoch);
    law_decimal_is_numeral(epoch as nat);
    assert(name.take(6) =~= seq!['e', 'p', 'o', 'c', 'h', '_']);
    assert(name.skip(6) =~= decimal(epoch as nat));
}

/// The name of a file that is being created is its own name and `.tmp`.
pub proof fn law_temporary_name_text(name: Seq<char>)
    ensures
        temporary_name(name).take(name.len() as int) == name,
        temporary_name(name).skip(name.len() as int) == seq!['.', 't', 'm', 'p'],
{
    reveal_strlit(".tmp");
    assert(temporary_name(name).take(name.len() as int) =~= name);
    assert(temporary_name(name).skip(name.len() as int) =~= seq!['.', 't', 'm', 'p']);
}

/// The path of a file is its directory, a slash, and its name; the manifest has these names.
pub proof fn law_path_text(dir: Seq<char>, name: Seq<char>)
    ensures
        path_in(dir, name).take(dir.len() as int) == dir,
        path_in(dir, name)[dir.len() as int] == '/',
        path_in(dir, name).skip(dir.len() as int + 1) == name,
        "MANIFEST"@ == seq!['M', 'A', 'N', 'I', 'F', 'E', 'S', 'T'],
        "MANIFEST.tmp"@ == seq!['M', 'A', 'N', 'I', 'F', 'E', 'S', 'T', '.', 't', 'm', 'p'],
{
    reveal_strlit("/");
    reveal_strlit("MANIFEST");
    reveal_strlit("MANIFEST.tmp");
    assert(path_in(dir, name).take(dir.len() as int) =~= dir);
    assert(path_in(dir, name).skip(dir.len() as int + 1) =~= name);
    assert("MANIFEST"@ =~= seq!['M', 'A', 'N', 'I', 'F', 'E', 'S', 'T']);
    assert("MANIFEST.tmp"@ =~= seq!['M', 'A', 'N', 'I', 'F', 'E', 'S', 'T', '.', 't', 'm', 'p']);
}

/// An object file is named by its bucket and its part, and a reference file by its bucket.
pub proof fn law_file_metadata_name(file: FileMetadata)
    ensures
        file.file_type == FileType::Object ==> file.name() == object_file_name(
            file.bucket_num,
            file.part_num,
        ),
        file.file_type == FileType::Reference ==> file.name() == reference_file_name(
            file.bucket_num,
        ),
{
}

/// The number that `s` writes out: at least one digit and nothing but digits, after an optional
/// plus sign.
pub open spec fn read_number(s: Seq<char>) -> Option<int> {
    let digits = if s.len() > 0 && s[0] == '+' {
        s.subrange(1, s.len() as int)
    } else {
        s
    };
    if all_digits(digits) {
        Some(read_digits(digits))
    } else {
        None
    }
}

proof fn lemma_read_digits(s: Seq<char>)
    requires
        forall|i: int| 0 <= i < s.len() ==> '0' <= #[trigger] s[i] <= '9',
    ensures
        read_digits(s) == digits_value(s),
        read_digits(s) >= 0,
    decreases s.len(),
{
    if s.len() > 0 {
        assert('0' <= s[s.len() - 1] <= '9');
        let front = s.drop_last();
        assert forall|i: int| 0 <= i < front.len() implies '0' <= #[trigger] front[i] <= '9' by {
            assert(front[i] == s[i]);
        }
        lemma_read_digits(front);
    }
}

/// A text is read as the number that it writes out, if that is in range, and else as none.
pub proof fn law_parsed_u32_text(s: Seq<char>)
    ensures
        match read_number(s) {
            Some(n) => if n <= 4294967295 {
                parsed_u32(s) == Some(n as u32) && n >= 0
            } else {
                parsed_u32(s) is None
            },
            None => parsed_u32(s) is None,
        },
{
    let digits = unsigned(s);
    if s.len() > 0 && s[0] == '+' {
        assert(s.skip(1) =~= s.subrange(1, s.len() as int));
    }
    if all_digits(digits) {
        lemma_read_digits(digits);
        assert(forall|i: int| 0 <= i < digits.len() ==> is_digit(#[trigger] digits[i]));
    } else if digits.len() > 0 {
        let i = choose|i: int| 0 <= i < digits.len() && !('0' <= #[trigger] digits[i] <= '9');
        assert(!is_digit(digits[i]));
    }
}

/// What a name of the form `b_p.obj`, split at its first underscore, says of the parts of a bucket.
pub proof fn law_reading_of_object_names(b: Seq<char>, p: Seq<char>, bucket: u32)
    requires
        !b.contains('_'),
    ensures
        ({
            let name = b + seq!['_'] + p + seq!['.', 'o', 'b', 'j'];
            let is_bucket = match read_number(b) {
                Some(n) => n <= 4294967295,
                None => false,
            };
            let is_part = match read_number(p) {
                Some(n) => n <= 4294967295,
                None => false,
            };
            if !is_bucket {
                reading(name, bucket) == NameReading::Faulty(NameFault::BucketNumber)
            } else if read_number(b) != Some(bucket as int) {
                reading(name, bucket) == NameReading::Unrelated
            } else if !is_part {
                reading(name, bucket) == NameReading::Faulty(NameFault::PartNumber)
            } else {
                reading(name, bucket) matches NameReading::Part(n) && read_number(p) == Some(
                    n as int,
                )
            }
        }),
{
    reveal_strlit(".obj");
    let name = b + seq!['_'] + p + seq!['.', 'o', 'b', 'j'];
    let stem = name.take(name.len() - 4);
    assert(name.skip(name.len() - 4) =~= ".obj"@);
    assert(stem =~= b + seq!['_'] + p);
    let at = b.len() as int;
    assert(stem[at] == '_');
    assert(stem.contains('_'));
    stem.index_of_first_ensures('_');
    let first = stem.index_of_first('_').unwrap();
    assert(first == at) by {
        if first < at {
            assert(stem[first] == b[first]);
            assert(b.contains('_'));
        }
    }
    assert(stem.take(at) =~= b);
    assert(stem.skip(at + 1) =~= p);
    law_parsed_u32_text(b);
    law_parsed_u32_text(p);
}

/// A name that ends in `.obj` and has no underscore before is faulty; one that does not end in
/// `.obj` says nothing.
pub proof fn law_reading_of_other_names(stem: Seq<char>, name: Seq<char>, bucket: u32)
    ensures
        !stem.contains('_') ==> reading(stem + seq!['.', 'o', 'b', 'j'], bucket)
            == NameReading::Faulty(NameFault::NoSeparator),
        name.len() < 4 || name.subrange(name.len() - 4, name.len() as int) != seq![
            '.',
            'o',
            'b',
            'j',
        ] ==> reading(name, bucket) == NameReading::Unrelated,
{
    reveal_strlit(".obj");
    let full = stem + seq!['.', 'o', 'b', 'j'];
    assert(full.skip(full.len() - 4) =~= ".obj"@);
    assert(full.take(full.len() - 4) =~= stem);
    assert(".obj"@ =~= seq!['.', 'o', 'b', 'j']);
    if name.len() >= 4 {
        assert(name.skip(name.len() - 4) =~= name.subrange(name.len() - 4, name.len() as int));
    }
}

/// The next part of a bucket in a directory: an error for the first file with a faulty name; and
/// else one above the highest part that the directory shows, or 1 where it shows none.
pub proof fn law_next_part(names: Seq<String>, bucket: u32)
    requires
        next_part_exists(names, bucket),
    ensures
        match next_part(names, bucket) {
            Ok(part_num) => {
                &&& part_num > 0
                &&& forall|i: int|
                    0 <= i < names.len() ==> match reading((#[trigger] names[i])@, bucket) {
                        NameReading::Part(p) => p < part_num,
                        NameReading::Unrelated => true,
                        NameReading::Faulty(_) => false,
                    }
                &&& part_num == 1 || exists|i: int|
                    0 <= i < names.len() && reading((#[trigger] names[i])@, bucket)
                        == NameReading::Part((part_num - 1) as u32)
            },
            Err(error) => exists|i: int|
                {
                    &&& 0 <= i < names.len()
                    &&& reading((#[trigger] names[i])@, bucket) == NameReading::Faulty(error.fault)
                    &&& error.file_name == names[i]
                    &&& forall|j: int|
                        0 <= j < i ==> !(reading((#[trigger] names[j])@, bucket) is Faulty)
                },
        },
{
    law_highest_part(names, bucket);
    law_first_fault(names, bucket);
}

} // verus!
