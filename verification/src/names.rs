//! The names of the snapshot files, and what the names in a directory say of its part numbers.
use vstd::prelude::*;
use vstd::string::*;

verus! {

/// The digit `d`, for `d` below ten.
pub open spec fn digit(d: nat) -> char {
    (48 + d) as char
}

/// `n` in decimal, without leading zeros.
pub open spec fn decimal(n: nat) -> Seq<char>
    decreases n,
{
    if n < 10 {
        seq![digit(n)]
    } else {
        decimal(n / 10).push(digit(n % 10))
    }
}

pub open spec fn is_digit(c: char) -> bool {
    '0' <= c <= '9'
}

/// The number that a sequence of digits writes out.
pub open spec fn digits_value(s: Seq<char>) -> nat
    decreases s.len(),
{
    if s.len() == 0 {
        0
    } else {
        (digits_value(s.drop_last()) * 10 + (s.last() as int - 48)) as nat
    }
}

/// `s` without a leading plus sign.
pub open spec fn unsigned(s: Seq<char>) -> Seq<char> {
    if s.len() > 0 && s[0] == '+' {
        s.skip(1)
    } else {
        s
    }
}

/// The `u32` that `s` stands for: at least one digit and nothing but digits, after an optional
/// plus sign, within range.
pub open spec fn parsed_u32(s: Seq<char>) -> Option<u32> {
    let digits = unsigned(s);
    if digits.len() > 0 && (forall|i: int| 0 <= i < digits.len() ==> is_digit(#[trigger] digits[i]))
        && digits_value(digits) <= u32::MAX {
        Some(digits_value(digits) as u32)
    } else {
        None
    }
}

/// The directory of an epoch.
pub open spec fn epoch_dir_name(epoch: u64) -> Seq<char> {
    "epoch_"@ + decimal(epoch as nat)
}

/// The file that holds part `part_num` of bucket `bucket_num`.
pub open spec fn object_file_name(bucket_num: u32, part_num: u32) -> Seq<char> {
    decimal(bucket_num as nat) + "_"@ + decimal(part_num as nat) + ".obj"@
}

/// The file that holds the object references of bucket `bucket_num`.
pub open spec fn reference_file_name(bucket_num: u32) -> Seq<char> {
    "REFERENCE-"@ + decimal(bucket_num as nat)
}

/// The name under which a file is written before it gets its own.
pub open spec fn temporary_name(name: Seq<char>) -> Seq<char> {
    name + ".tmp"@
}

/// Why the name of an object file is not `<bucket_num>_<part_num>.obj`.
#[derive(Clone, Copy, Debug, PartialEq, Eq, Structural)]
pub enum NameFault {
    /// There is no underscore.
    NoSeparator,
    /// What stands before the first underscore is no `u32`.
    BucketNumber,
    /// What stands after the first underscore is no `u32`.
    PartNumber,
}

/// A file name that was not as it should be.
#[derive(Debug, PartialEq, Eq)]
pub struct NameError {
    pub file_name: String,
    pub fault: NameFault,
}

/// What a file name says of the parts of one bucket.
#[derive(Clone, Copy, Debug, PartialEq, Eq, Structural)]
pub enum NameReading {
    /// The file is no object file, or one of another bucket.
    Unrelated,
    /// The file is this part of the bucket.
    Part(u32),
    Faulty(NameFault),
}

pub open spec fn is_object_name(name: Seq<char>) -> bool {
    name.len() >= 4 && name.skip(name.len() - 4) == ".obj"@
}

/// What stands before the first underscore, and what stands after it.
pub open spec fn split_at_underscore(s: Seq<char>) -> Option<(Seq<char>, Seq<char>)> {
    if s.contains('_') {
        let at = s.index_of_first('_').unwrap();
        Some((s.take(at), s.skip(at + 1)))
    } else {
        None
    }
}

/// What the name of a file says of the parts of `bucket`. The part number of another bucket is
/// not looked at.
pub open spec fn reading(name: Seq<char>, bucket: u32) -> NameReading {
    if !is_object_name(name) {
        NameReading::Unrelated
    } else {
        match split_at_underscore(name.take(name.len() - 4)) {
            None => NameReading::Faulty(NameFault::NoSeparator),
            Some((b, p)) => match parsed_u32(b) {
                None => NameReading::Faulty(NameFault::BucketNumber),
                Some(number) => if number != bucket {
                    NameReading::Unrelated
                } else {
                    match parsed_u32(p) {
                        None => NameReading::Faulty(NameFault::PartNumber),
                        Some(part) => NameReading::Part(part),
                    }
                },
            },
        }
    }
}

/// The highest part number of `bucket` among `names`, or 0.
pub open spec fn highest_part(names: Seq<String>, bucket: u32) -> nat
    decreases names.len(),
{
    if names.len() == 0 {
        0
    } else {
        let before = highest_part(names.drop_last(), bucket);
        match reading(names.last()@, bucket) {
            NameReading::Part(p) if p > before => p as nat,
            _ => before,
        }
    }
}

/// The first of `names` that is faulty, if one is.
pub open spec fn first_fault(names: Seq<String>, bucket: u32) -> Option<NameError>
    decreases names.len(),
{
    if names.len() == 0 {
        None
    } else {
        match first_fault(names.drop_last(), bucket) {
            Some(error) => Some(error),
            None => match reading(names.last()@, bucket) {
                NameReading::Faulty(fault) => Some(NameError { file_name: names.last(), fault }),
                _ => None,
            },
        }
    }
}

/// The number of the next part of `bucket` in a directory that holds the files `names`: one
/// above the highest there is.
pub open spec fn next_part(names: Seq<String>, bucket: u32) -> Result<u32, NameError> {
    match first_fault(names, bucket) {
        Some(error) => Err(error),
        None => Ok((highest_part(names, bucket) + 1) as u32),
    }
}

/// There is a number above all part numbers of `bucket` among `names`.
pub open spec fn next_part_exists(names: Seq<String>, bucket: u32) -> bool {
    first_fault(names, bucket) is None ==> highest_part(names, bucket) < u32::MAX
}

/// The digit `d` as text.
fn digit_str(d: u64) -> (s: &'static str)
    requires
        d < 10,
    ensures
        s@ == seq![digit(d as nat)],
{
    proof {
        reveal_strlit("0");
        reveal_strlit("1");
        reveal_strlit("2");
        reveal_strlit("3");
        reveal_strlit("4");
        reveal_strlit("5");
        reveal_strlit("6");
        reveal_strlit("7");
        reveal_strlit("8");
        reveal_strlit("9");
    }
    let s = match d {
        0 => "0",
        1 => "1",
        2 => "2",
        3 => "3",
        4 => "4",
        5 => "5",
        6 => "6",
        7 => "7",
        8 => "8",
        _ => "9",
    };
    assert(s@ =~= seq![digit(d as nat)]);
    s
}

/// Puts `n` in decimal behind `out`.
fn append_decimal(out: &mut String, n: u64)
    ensures
        final(out)@ == old(out)@ + decimal(n as nat),
    decreases n,
{
    if n >= 10 {
        append_decimal(out, n / 10);
    }
    out.append(digit_str(n % 10));
    assert(out@ =~= old(out)@ + decimal(n as nat));
}

/// The directory of `epoch`, as `epoch_<epoch>`.
pub fn epoch_dir(epoch: u64) -> (name: String)
    ensures
        name@ == epoch_dir_name(epoch),
{
    let mut name = String::new();
    name.append("epoch_");
    append_decimal(&mut name, epoch);
    assert(name@ =~= epoch_dir_name(epoch));
    name
}

/// The name of an object file, as `<bucket_num>_<part_num>.obj`.
pub fn object_file(bucket_num: u32, part_num: u32) -> (name: String)
    ensures
        name@ == object_file_name(bucket_num, part_num),
{
    let mut name = String::new();
    append_decimal(&mut name, bucket_num as u64);
    name.append("_");
    append_decimal(&mut name, part_num as u64);
    name.append(".obj");
    assert(name@ =~= object_file_name(bucket_num, part_num));
    name
}

/// The name of a reference file, as `REFERENCE-<bucket_num>`.
pub fn reference_file(bucket_num: u32) -> (name: String)
    ensures
        name@ == reference_file_name(bucket_num),
{
    let mut name = String::new();
    name.append("REFERENCE-");
    append_decimal(&mut name, bucket_num as u64);
    assert(name@ =~= reference_file_name(bucket_num));
    name
}

/// The name under which the file `name` is written before it is renamed.
pub fn temporary(name: &String) -> (tmp: String)
    ensures
        tmp@ == temporary_name(name@),
{
    let mut tmp = name.clone();
    tmp.append(".tmp");
    tmp
}

/// The characters of `s`.
fn characters(s: &str) -> (v: Vec<char>)
    ensures
        v@ == s@,
{
    let mut v: Vec<char> = Vec::new();
    for c in it: s.chars()
        invariant
            it.seq() == s@,
            v@ == s@.take(it.index()),
    {
        v.push(c);
        assert(s@.take(it.index() + 1) =~= s@.take(it.index()).push(c));
    }
    assert(s@.take(s@.len() as int) =~= s@);
    v
}

/// More digits stand for no smaller number.
proof fn lemma_digits_value_grows(s: Seq<char>, k: int)
    requires
        0 <= k <= s.len(),
        forall|i: int| 0 <= i < s.len() ==> is_digit(#[trigger] s[i]),
    ensures
        digits_value(s.take(k)) <= digits_value(s),
    decreases s.len(),
{
    if k < s.len() {
        lemma_digits_value_grows(s.drop_last(), k);
        assert(s.drop_last().take(k) =~= s.take(k));
        assert(is_digit(s[s.len() - 1]));
    } else {
        assert(s.take(k) =~= s);
    }
}

/// The `u32` that the characters `v[from..to]` stand for.
fn parse_u32(v: &Vec<char>, from: usize, to: usize) -> (number: Option<u32>)
    requires
        from <= to <= v@.len(),
    ensures
        number == parsed_u32(v@.subrange(from as int, to as int)),
{
    let ghost s = v@.subrange(from as int, to as int);
    let start: usize = if from < to && v[from] == '+' {
        from + 1
    } else {
        from
    };
    let ghost digits = unsigned(s);
    assert(digits =~= v@.subrange(start as int, to as int));
    if start == to {
        return None;
    }
    let mut value: u64 = 0;
    let mut i: usize = start;
    while i < to
        invariant
            start <= i <= to <= v@.len(),
            digits == v@.subrange(start as int, to as int),
            s == v@.subrange(from as int, to as int),
            digits == unsigned(s),
            digits.len() > 0,
            forall|j: int| 0 <= j < i - start ==> is_digit(#[trigger] digits[j]),
            value == digits_value(digits.take(i - start)),
            value <= u32::MAX,
        decreases to - i,
    {
        let c: char = v[i];
        assert(c == digits[i - start]);
        if !('0' <= c && c <= '9') {
            assert(!is_digit(digits[i - start]));
            return None;
        }
        value = value * 10 + (c as u64 - 48);
        assert(digits.take(i + 1 - start).drop_last() =~= digits.take(i - start));
        if value > 4294967295 {
            proof {
                if forall|j: int| 0 <= j < digits.len() ==> is_digit(#[trigger] digits[j]) {
                    lemma_digits_value_grows(digits, i + 1 - start);
                }
            }
            return None;
        }
        i = i + 1;
    }
    assert(digits.take(to - start) =~= digits);
    Some(value as u32)
}

/// What the name of a file says of the parts of `bucket`.
pub fn read_name(name: &String, bucket: u32) -> (r: NameReading)
    ensures
        r == reading(name@, bucket),
{
    let v = characters(name.as_str());
    let len: usize = v.len();
    proof {
        reveal_strlit(".obj");
    }
    if len < 4 {
        return NameReading::Unrelated;
    }
    let end: usize = len - 4;
    let ghost suffix = v@.skip(end as int);
    if !(v[end] == '.' && v[end + 1] == 'o' && v[end + 2] == 'b' && v[end + 3] == 'j') {
        assert(!(suffix[0] == '.' && suffix[1] == 'o' && suffix[2] == 'b' && suffix[3] == 'j'));
        return NameReading::Unrelated;
    }
    assert(suffix =~= ".obj"@);
    let ghost stem = v@.take(end as int);
    let mut at: usize = 0;
    while at < end && v[at] != '_'
        invariant
            at <= end <= v@.len(),
            stem == v@.take(end as int),
            forall|j: int| 0 <= j < at ==> #[trigger] stem[j] != '_',
        decreases end - at,
    {
        assert(stem[at as int] == v@[at as int]);
        at = at + 1;
    }
    if at == end {
        assert(!stem.contains('_'));
        return NameReading::Faulty(NameFault::NoSeparator);
    }
    proof {
        assert(stem[at as int] == '_');
        assert(stem.contains('_'));
        stem.index_of_first_ensures('_');
        assert(stem.index_of_first('_') == Some(at as int));
        assert(stem.take(at as int) =~= v@.subrange(0, at as int));
        assert(stem.skip(at + 1) =~= v@.subrange(at + 1, end as int));
    }
    match parse_u32(&v, 0, at) {
        None => NameReading::Faulty(NameFault::BucketNumber),
        Some(number) => {
            if number != bucket {
                NameReading::Unrelated
            } else {
                match parse_u32(&v, at + 1, end) {
                    None => NameReading::Faulty(NameFault::PartNumber),
                    Some(part) => NameReading::Part(part),
                }
            }
        },
    }
}

/// The highest part number of `bucket` in a directory that holds the files `names`, or 0; the
/// first faulty name, where there is one.
pub fn last_object_file_number(names: &Vec<String>, bucket: u32) -> (last: Result<u32, NameError>)
    ensures
        match last {
            Ok(number) => first_fault(names@, bucket) is None && number == highest_part(
                names@,
                bucket,
            ),
            Err(error) => first_fault(names@, bucket) == Some(error),
        },
{
    let mut max: u32 = 0;
    let mut i: usize = 0;
    while i < names.len()
        invariant
            i <= names@.len(),
            first_fault(names@.take(i as int), bucket) is None,
            max == highest_part(names@.take(i as int), bucket),
        decreases names@.len() - i,
    {
        assert(names@.take(i + 1).drop_last() =~= names@.take(i as int));
        match read_name(&names[i], bucket) {
            NameReading::Unrelated => {},
            NameReading::Part(part) => {
                if part > max {
                    max = part;
                }
            },
            NameReading::Faulty(fault) => {
                let error = NameError { file_name: names[i].clone(), fault };
                proof {
                    assert(first_fault(names@.take(i + 1), bucket) == Some(error));
                    lemma_first_fault_stays(names@, i + 1, bucket);
                }
                return Err(error);
            },
        }
        i = i + 1;
    }
    assert(names@.take(i as int) =~= names@);
    Ok(max)
}

/// The number of the next object file of `bucket` in a directory that holds the files `names`:
/// one above the highest there is. A name that ends in `.obj` and has no bucket number before an
/// underscore is an error, and so is one of this bucket with no part number behind it.
pub fn next_object_file_number(names: &Vec<String>, bucket: u32) -> (next: Result<u32, NameError>)
    requires
        next_part_exists(names@, bucket),
    ensures
        next == next_part(names@, bucket),
{
    match last_object_file_number(names, bucket) {
        Ok(max) => Ok(max + 1),
        Err(error) => Err(error),
    }
}

/// A faulty name stays the first one, whatever names follow.
proof fn lemma_first_fault_stays(names: Seq<String>, k: int, bucket: u32)
    requires
        0 <= k <= names.len(),
        first_fault(names.take(k), bucket) is Some,
    ensures
        first_fault(names, bucket) == first_fault(names.take(k), bucket),
    decreases names.len(),
{
    if k < names.len() {
        assert(names.drop_last().take(k) =~= names.take(k));
        lemma_first_fault_stays(names.drop_last(), k, bucket);
    } else {
        assert(names.take(k) =~= names);
    }
}

} // verus!
