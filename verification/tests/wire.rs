use devices_manager::text::{
    bytes_eq, decimal_text, ends_with, parse_decimal, split, strip_prefix, text_eq,
};
use devices_manager::wire::{
    decode_be, decode_file_id, encode_be, encode_blob, encode_file_header, encode_file_request,
    encode_index_request, BlobReader, Request,
};

fn read_all(reader: &mut BlobReader, stream: &[u8]) -> usize {
    let mut pos = 0;
    while let Some(n) = reader.wanted() {
        reader.feed(stream[pos..pos + n].to_vec());
        pos += n;
    }
    pos
}

#[test]
fn numbers_are_big_endian() {
    assert_eq!(encode_be(0x0102, 2), vec![1, 2]);
    assert_eq!(encode_be(0x0102, 8), vec![0, 0, 0, 0, 0, 0, 1, 2]);
    assert_eq!(encode_be(u64::MAX, 8), u64::MAX.to_be_bytes().to_vec());
    assert_eq!(decode_be(&[1, 2]), 0x0102);
    assert_eq!(decode_be(&[0xff; 8]), u64::MAX);
    assert_eq!(decode_be(&[]), 0);
}

#[test]
fn numbers_read_back() {
    for x in [0u64, 1, 255, 256, 65535, 65536, 1 << 40, u64::MAX] {
        assert_eq!(decode_be(&encode_be(x, 8)), x);
    }
}

#[test]
fn request_codes() {
    assert_eq!(Request::Upload.code(), 1);
    assert_eq!(Request::Index.code(), 2);
    assert_eq!(Request::Download.code(), 3);
    for code in 0..=255u8 {
        match Request::from_code(code) {
            Some(q) => assert_eq!(q.code(), code),
            None => assert!(code == 0 || code > 3),
        }
    }
}

#[test]
fn requests_on_the_wire() {
    assert_eq!(encode_index_request(), vec![2]);
    let bytes = encode_file_request(0x0a0b);
    assert_eq!(bytes, vec![3, 0, 0, 0, 0, 0, 0, 0x0a, 0x0b]);
    assert_eq!(decode_file_id(&bytes[1..]), 0x0a0b);
}

#[test]
fn file_header_on_the_wire() {
    let header = encode_file_header(b"ab", 5);
    assert_eq!(header, vec![0, 2, b'a', b'b', 0, 0, 0, 0, 0, 0, 0, 5]);
}

#[test]
fn file_header_cuts_the_length_of_long_names() {
    let name = vec![b'x'; 0x1_0003];
    let header = encode_file_header(&name, 1);
    assert_eq!(header.len(), 2 + name.len() + 8);
    assert_eq!(&header[..2], &[0, 3]);
}

#[test]
fn blobs_read_back() {
    let mut stream = encode_blob(b"one");
    stream.extend(encode_blob(b""));
    stream.extend(encode_blob(b"three"));
    let end = stream.len();
    stream.extend(b"rest");
    let mut reader = BlobReader::new(3);
    assert_eq!(reader.wanted(), Some(8));
    assert_eq!(read_all(&mut reader, &stream), end);
    assert_eq!(reader.into_parts(), vec![b"one".to_vec(), vec![], b"three".to_vec()]);
}

#[test]
fn blob_has_its_length_in_front() {
    assert_eq!(encode_blob(b"hi"), vec![0, 0, 0, 0, 0, 0, 0, 2, b'h', b'i']);
}

#[test]
fn no_blobs_are_wanted_when_none_are_expected() {
    let reader = BlobReader::new(0);
    assert_eq!(reader.wanted(), None);
    assert!(reader.into_parts().is_empty());
}

#[test]
fn text_is_compared_by_its_characters() {
    assert!(text_eq("", ""));
    assert!(text_eq("päth", "päth"));
    assert!(!text_eq("a", "ab"));
    assert!(!text_eq("ab", "ac"));
    assert!(bytes_eq(b"ab", b"ab"));
    assert!(!bytes_eq(b"ab", b"b"));
}

#[test]
fn affixes() {
    assert!(ends_with("film.part", ".part"));
    assert!(ends_with(".part", ".part"));
    assert!(!ends_with("part", ".part"));
    assert_eq!(strip_prefix("DM1:ö", "DM1:"), Some("ö".to_string()));
    assert_eq!(strip_prefix("DM2:x", "DM1:"), None);
    assert_eq!(strip_prefix("DM", "DM1:"), None);
}

#[test]
fn decimal_numbers() {
    assert_eq!(decimal_text(0), "0");
    assert_eq!(decimal_text(1234567890), "1234567890");
    assert_eq!(decimal_text(u128::MAX), u128::MAX.to_string());
    assert_eq!(parse_decimal("007", 255), Some(7));
    assert_eq!(parse_decimal("+12", 255), Some(12));
    assert_eq!(parse_decimal("256", 255), None);
    assert_eq!(parse_decimal("255", 255), Some(255));
    assert_eq!(parse_decimal("", 255), None);
    assert_eq!(parse_decimal("+", 255), None);
    assert_eq!(parse_decimal("-1", 255), None);
    assert_eq!(parse_decimal("1a", 255), None);
    assert_eq!(parse_decimal("18446744073709551615", u64::MAX), Some(u64::MAX));
    assert_eq!(parse_decimal("18446744073709551616", u64::MAX), None);
}

#[test]
fn pieces_between_separators() {
    assert_eq!(split("1,2,,3", ','), vec!["1", "2", "", "3"]);
    assert_eq!(split("", ','), vec![""]);
    assert_eq!(split(",", ','), vec!["", ""]);
}
