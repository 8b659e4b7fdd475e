use file_transfer::big_endian::{get_u64_be, put_u64_be};
use file_transfer::error::ProtocolError;
use file_transfer::wire::{decode_header, decode_lengths, encode_header, TransferHeader, PREFIX_LEN};

#[test]
fn u64_is_written_most_significant_byte_first() {
    let mut out: Vec<u8> = Vec::new();
    put_u64_be(&mut out, 0x0102_0304_0506_0708);
    assert_eq!(out, vec![1u8, 2, 3, 4, 5, 6, 7, 8]);
    assert_eq!(get_u64_be(&out, 0), 0x0102_0304_0506_0708);
}

#[test]
fn u64_is_appended_behind_what_is_there() {
    let mut out: Vec<u8> = vec![0xaa];
    put_u64_be(&mut out, 1);
    assert_eq!(out, vec![0xaau8, 0, 0, 0, 0, 0, 0, 0, 1]);
    assert_eq!(get_u64_be(&out, 1), 1);
}

#[test]
fn u64_extremes_agree_with_std() {
    for n in [0u64, 1, 255, 256, 65_535, 1 << 32, u64::MAX - 1, u64::MAX] {
        let mut out: Vec<u8> = Vec::new();
        put_u64_be(&mut out, n);
        assert_eq!(out, n.to_be_bytes().to_vec());
        assert_eq!(get_u64_be(&out, 0), n);
    }
}

#[test]
fn header_is_size_then_name_length_then_name() {
    let bytes = encode_header(5, b"a.txt");
    assert_eq!(
        bytes,
        vec![0u8, 0, 0, 0, 0, 0, 0, 5, 0, 0, 0, 0, 0, 0, 0, 5, b'a', b'.', b't', b'x', b't']
    );
    assert_eq!(bytes.len(), PREFIX_LEN + 5);
}

#[test]
fn header_with_an_empty_name_is_the_two_fields() {
    let bytes = encode_header(u64::MAX, b"");
    assert_eq!(bytes, vec![255u8, 255, 255, 255, 255, 255, 255, 255, 0, 0, 0, 0, 0, 0, 0, 0]);
    let header = decode_header(&bytes).unwrap();
    assert_eq!(header.total_size(), u64::MAX);
    assert_eq!(header.filename_length(), 0);
    assert_eq!(header.filename(), b"");
}

#[test]
fn header_round_trip() {
    let header = TransferHeader::new(123_456_789, "report (1).tar.gz");
    let decoded = decode_header(&header.encode()).unwrap();
    assert_eq!(decoded, header);
    assert_eq!(decoded.total_size(), 123_456_789);
    assert_eq!(decoded.filename_length(), 17);
    assert_eq!(decoded.filename(), b"report (1).tar.gz");
}

#[test]
fn header_round_trip_with_a_name_beyond_ascii() {
    let header = TransferHeader::new(1, "r\u{e9}sum\u{e9}.pdf");
    assert_eq!(header.filename_length(), 12);
    let bytes = header.encode();
    assert_eq!(bytes.len(), 16 + 12);
    assert_eq!(decode_header(&bytes).unwrap(), header);
}

#[test]
fn what_follows_the_header_is_not_read() {
    let mut bytes = encode_header(3, b"x");
    bytes.extend_from_slice(&[0xff, 0xfe, 0xfd]);
    let header = decode_header(&bytes).unwrap();
    assert_eq!(header.total_size(), 3);
    assert_eq!(header.filename(), b"x");
}

#[test]
fn lengths_are_read_off_the_front() {
    let bytes = encode_header(700, b"name");
    assert_eq!(decode_lengths(&bytes), Ok((700, 4)));
    assert_eq!(decode_lengths(&bytes[..16]), Ok((700, 4)));
}

#[test]
fn fewer_than_sixteen_bytes_are_truncated() {
    let bytes = encode_header(700, b"name");
    assert_eq!(decode_lengths(&bytes[..15]), Err(ProtocolError::Truncated));
    assert_eq!(decode_header(&bytes[..15]), Err(ProtocolError::Truncated));
    assert_eq!(decode_header(&[]), Err(ProtocolError::Truncated));
    assert_eq!(decode_header(&bytes[..8]), Err(ProtocolError::Truncated));
}

#[test]
fn a_name_cut_short_is_truncated() {
    let bytes = encode_header(700, b"name");
    assert_eq!(decode_header(&bytes[..16]), Err(ProtocolError::Truncated));
    assert_eq!(decode_header(&bytes[..19]), Err(ProtocolError::Truncated));
    assert!(decode_header(&bytes[..20]).is_ok());
}

#[test]
fn a_name_length_beyond_all_memory_is_truncated() {
    let mut bytes = vec![0u8; 8];
    bytes.extend_from_slice(&[0xff; 8]);
    bytes.extend_from_slice(b"abc");
    assert_eq!(decode_header(&bytes), Err(ProtocolError::Truncated));
}

#[test]
fn a_name_that_is_not_utf8_is_refused() {
    let bytes = encode_header(1, &[0x66, 0xff, 0x6f]);
    assert_eq!(decode_header(&bytes), Err(ProtocolError::InvalidEncoding));
    let cut = encode_header(1, &[0xe2, 0x82]);
    assert_eq!(decode_header(&cut), Err(ProtocolError::InvalidEncoding));
    let surrogate = encode_header(1, &[0xed, 0xa0, 0x80]);
    assert_eq!(decode_header(&surrogate), Err(ProtocolError::InvalidEncoding));
}

#[test]
fn truncation_is_noticed_before_the_encoding() {
    let bytes = encode_header(1, &[0xff, 0xff, 0xff]);
    assert_eq!(decode_header(&bytes[..18]), Err(ProtocolError::Truncated));
    assert_eq!(decode_header(&bytes), Err(ProtocolError::InvalidEncoding));
}
