use sui_snapshot::encoding::{
    file_header, reference_delimiter, Blob, Encoding, ObjectRef, FILE_MAX_BYTES,
    MANIFEST_FILE_MAGIC, OBJECT_FILE_MAGIC, OBJECT_REF_BYTES, REFERENCE_FILE_MAGIC,
};

fn blob(len: usize) -> Blob {
    Blob { data: vec![7; len], encoding: Encoding::Bcs }
}

/// Reads a variable-length integer and what follows it.
fn read_varint(bytes: &[u8]) -> (usize, &[u8]) {
    let mut value: usize = 0;
    let mut shift: u32 = 0;
    let mut at: usize = 0;
    loop {
        let byte = bytes[at];
        value += ((byte & 0x7f) as usize) << shift;
        at += 1;
        shift += 7;
        if byte & 0x80 == 0 {
            return (value, &bytes[at..]);
        }
    }
}

#[test]
fn object_file_header() {
    assert_eq!(file_header(OBJECT_FILE_MAGIC), vec![0x00, 0xB7, 0xEC, 0x75]);
}

#[test]
fn reference_file_header() {
    assert_eq!(file_header(REFERENCE_FILE_MAGIC), vec![0xDE, 0xAD, 0xBE, 0xEF]);
}

#[test]
fn manifest_header() {
    assert_eq!(file_header(MANIFEST_FILE_MAGIC), vec![0x00, 0xC0, 0xFF, 0xEE]);
}

#[test]
fn headers_of_extreme_numbers() {
    assert_eq!(file_header(0), vec![0, 0, 0, 0]);
    assert_eq!(file_header(1), vec![0, 0, 0, 1]);
    assert_eq!(file_header(u32::MAX), vec![255, 255, 255, 255]);
}

#[test]
fn reference_row() {
    let mut object_id = [0u8; 32];
    object_id[0] = 1;
    object_id[31] = 2;
    let mut digest = [0u8; 32];
    digest[0] = 3;
    digest[31] = 4;
    let row = ObjectRef { object_id, version: 0x0102030405060708, digest }.to_row();
    let mut expected = vec![0u8; 72];
    expected[0] = 1;
    expected[31] = 2;
    for i in 0..8 {
        expected[32 + i] = i as u8 + 1;
    }
    expected[40] = 3;
    expected[71] = 4;
    assert_eq!(row, expected);
    assert_eq!(row.len(), OBJECT_REF_BYTES);
}

#[test]
fn rows_of_different_references_differ() {
    let a = ObjectRef { object_id: [1; 32], version: 1, digest: [1; 32] };
    let b = ObjectRef { object_id: [1; 32], version: 256, digest: [1; 32] };
    let c = ObjectRef { object_id: [1; 32], version: 1, digest: [2; 32] };
    assert_ne!(a.to_row(), b.to_row());
    assert_ne!(a.to_row(), c.to_row());
}

#[test]
fn delimiter_is_a_row_of_zeros() {
    assert_eq!(reference_delimiter(), vec![0u8; 72]);
    let zero = ObjectRef { object_id: [0; 32], version: 0, digest: [0; 32] };
    assert_eq!(zero.to_row(), reference_delimiter());
}

#[test]
fn encoding_byte() {
    assert_eq!(Encoding::Bcs.byte(), 1);
}

#[test]
fn frame_of_a_short_blob() {
    let b = Blob { data: vec![9, 8, 7], encoding: Encoding::Bcs };
    assert_eq!(b.to_frame(), vec![3, 1, 9, 8, 7]);
    assert_eq!(b.size(), 5);
}

#[test]
fn frame_of_an_empty_blob() {
    let b = blob(0);
    assert_eq!(b.to_frame(), vec![0, 1]);
    assert_eq!(b.size(), 2);
}

#[test]
fn frame_with_a_long_length() {
    let frame = blob(300).to_frame();
    assert_eq!(frame[..3], [0xAC, 0x02, 1]);
    assert_eq!(frame[3..], [7u8; 300]);
    assert_eq!(blob(300).size(), 303);
}

#[test]
fn sizes_where_the_length_grows() {
    assert_eq!(blob(127).size(), 127 + 2);
    assert_eq!(blob(128).size(), 128 + 3);
    assert_eq!(blob(16383).size(), 16383 + 3);
    assert_eq!(blob(16384).size(), 16384 + 4);
    for len in [0, 1, 127, 128, 16383, 16384] {
        assert_eq!(blob(len).size(), blob(len).to_frame().len());
    }
}

#[test]
fn frames_read_back() {
    let first = Blob { data: vec![5; 200], encoding: Encoding::Bcs };
    let second = Blob { data: vec![6, 6], encoding: Encoding::Bcs };
    let mut file = first.to_frame();
    file.extend(second.to_frame());
    let (len, rest) = read_varint(&file);
    assert_eq!(len, 200);
    assert_eq!(rest[0], 1);
    assert_eq!(rest[1..201], [5u8; 200]);
    let (len, rest) = read_varint(&rest[201..]);
    assert_eq!(len, 2);
    assert_eq!(rest.to_vec(), vec![1, 6, 6]);
}

#[test]
fn blobs_can_be_counted() {
    assert!(blob(0).is_countable());
    assert!(blob(1000).is_countable());
}

#[test]
fn file_limit() {
    assert_eq!(FILE_MAX_BYTES, 128 * 1024 * 1024);
}
