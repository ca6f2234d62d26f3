use sui_snapshot::names::{
    epoch_dir, last_object_file_number, next_object_file_number, object_file, read_name,
    reference_file, temporary, NameError, NameFault, NameReading,
};

fn names(list: &[&str]) -> Vec<String> {
    list.iter().map(|name| name.to_string()).collect()
}

fn fault(file_name: &str, fault: NameFault) -> NameError {
    NameError { file_name: file_name.to_string(), fault }
}

#[test]
fn file_names() {
    assert_eq!(epoch_dir(0), "epoch_0");
    assert_eq!(epoch_dir(1234567890), "epoch_1234567890");
    assert_eq!(epoch_dir(u64::MAX), "epoch_18446744073709551615");
    assert_eq!(object_file(1, 10), "1_10.obj");
    assert_eq!(object_file(0, u32::MAX), "0_4294967295.obj");
    assert_eq!(reference_file(1), "REFERENCE-1");
    assert_eq!(reference_file(20), "REFERENCE-20");
}

#[test]
fn temporary_names() {
    assert_eq!(temporary(&object_file(1, 2)), "1_2.obj.tmp");
    assert_eq!(temporary(&reference_file(3)), "REFERENCE-3.tmp");
}

#[test]
fn object_file_names_read_back() {
    for bucket in [0, 1, 9, 10, 4294967295] {
        for part in [0, 1, 10, 99, 100, 4294967295] {
            assert_eq!(read_name(&object_file(bucket, part), bucket), NameReading::Part(part));
        }
    }
}

#[test]
fn object_file_names_of_other_buckets() {
    assert_eq!(read_name(&object_file(1, 11), 11), NameReading::Unrelated);
    assert_eq!(read_name(&object_file(11, 1), 1), NameReading::Unrelated);
    assert_ne!(object_file(1, 11), object_file(11, 1));
}

#[test]
fn other_files_are_no_parts() {
    for name in ["REFERENCE-1", "REFERENCE-1.tmp", "1_1.obj.tmp", "MANIFEST", "obj", ""] {
        assert_eq!(read_name(&name.to_string(), 1), NameReading::Unrelated);
    }
}

#[test]
fn faulty_names() {
    let none = NameReading::Faulty(NameFault::NoSeparator);
    let bucket = NameReading::Faulty(NameFault::BucketNumber);
    let part = NameReading::Faulty(NameFault::PartNumber);
    assert_eq!(read_name(&".obj".to_string(), 1), none);
    assert_eq!(read_name(&"11.obj".to_string(), 1), none);
    assert_eq!(read_name(&"_1.obj".to_string(), 1), bucket);
    assert_eq!(read_name(&"a_1.obj".to_string(), 1), bucket);
    assert_eq!(read_name(&"-1_1.obj".to_string(), 1), bucket);
    assert_eq!(read_name(&"4294967296_1.obj".to_string(), 1), bucket);
    assert_eq!(read_name(&"1_.obj".to_string(), 1), part);
    assert_eq!(read_name(&"1_1_1.obj".to_string(), 1), part);
    assert_eq!(read_name(&"1_4294967296.obj".to_string(), 1), part);
}

#[test]
fn a_sign_and_leading_zeros_are_read() {
    assert_eq!(read_name(&"+1_+2.obj".to_string(), 1), NameReading::Part(2));
    assert_eq!(read_name(&"01_002.obj".to_string(), 1), NameReading::Part(2));
    assert_eq!(
        read_name(&"+_1.obj".to_string(), 1),
        NameReading::Faulty(NameFault::BucketNumber)
    );
    assert_eq!(
        read_name(&"1_++2.obj".to_string(), 1),
        NameReading::Faulty(NameFault::PartNumber)
    );
}

#[test]
fn part_number_of_another_bucket_is_not_read() {
    assert_eq!(read_name(&"2_x.obj".to_string(), 1), NameReading::Unrelated);
    assert_eq!(
        read_name(&"2_x.obj".to_string(), 2),
        NameReading::Faulty(NameFault::PartNumber)
    );
}

#[test]
fn names_agree_with_the_number_parser_of_std() {
    for text in ["", "+", "0", "00", "+7", "-7", "4294967295", "4294967296", "1 ", "\u{661}", "9x"] {
        let name = format!("1_{text}.obj");
        let expected = match text.parse::<u32>() {
            Ok(part) => NameReading::Part(part),
            Err(_) => NameReading::Faulty(NameFault::PartNumber),
        };
        assert_eq!(read_name(&name, 1), expected);
    }
}

#[test]
fn first_part_of_an_empty_directory() {
    assert_eq!(next_object_file_number(&vec![], 1), Ok(1));
    assert_eq!(last_object_file_number(&vec![], 1), Ok(0));
}

#[test]
fn next_part_is_above_the_highest() {
    let files = names(&["1_2.obj", "REFERENCE-1", "1_10.obj", "1_9.obj", "2_50.obj", "1_99.obj.tmp"]);
    assert_eq!(next_object_file_number(&files, 1), Ok(11));
    assert_eq!(last_object_file_number(&files, 1), Ok(10));
    assert_eq!(next_object_file_number(&files, 2), Ok(51));
    assert_eq!(next_object_file_number(&files, 3), Ok(1));
}

#[test]
fn next_part_is_a_new_file() {
    let mut files: Vec<String> = vec![];
    for part in 1..20 {
        let next = next_object_file_number(&files, 4).unwrap();
        assert_eq!(next, part);
        let name = object_file(4, next);
        assert!(!files.contains(&name));
        files.push(name);
    }
}

#[test]
fn first_faulty_name_is_reported() {
    let files = names(&["1_1.obj", "x.obj", "1_x.obj"]);
    assert_eq!(
        next_object_file_number(&files, 1),
        Err(fault("x.obj", NameFault::NoSeparator))
    );
    let files = names(&["x_1.obj", "x.obj"]);
    assert_eq!(
        next_object_file_number(&files, 1),
        Err(fault("x_1.obj", NameFault::BucketNumber))
    );
    let files = names(&["1_x.obj", "x.obj"]);
    assert_eq!(
        last_object_file_number(&files, 1),
        Err(fault("1_x.obj", NameFault::PartNumber))
    );
}

#[test]
fn last_part_number_of_all() {
    let files = names(&["1_4294967295.obj"]);
    assert_eq!(last_object_file_number(&files, 1), Ok(u32::MAX));
    let files = names(&["1_4294967294.obj"]);
    assert_eq!(next_object_file_number(&files, 1), Ok(u32::MAX));
}
