use file_transfer::error::{ProtocolError, SendError, TransferError};
use file_transfer::receiver::{receive, ReceiveError};
use file_transfer::sender::{check_source, frame};
use file_transfer::wire::encode_header;

fn names(list: &[&str]) -> Vec<Vec<u8>> {
    list.iter().map(|n| n.as_bytes().to_vec()).collect()
}

#[test]
fn only_regular_files_with_contents_are_sent() {
    assert_eq!(check_source(true, 1), Ok(()));
    assert_eq!(check_source(true, u64::MAX), Ok(()));
    assert_eq!(check_source(true, 0), Err(SendError::EmptyFile));
    assert_eq!(check_source(false, 10), Err(SendError::NotAFile));
    assert_eq!(check_source(false, 0), Err(SendError::NotAFile));
}

#[test]
fn a_message_is_the_header_and_the_contents() {
    let bytes = frame("a.txt", b"hello").unwrap();
    let mut expected = vec![0u8, 0, 0, 0, 0, 0, 0, 5, 0, 0, 0, 0, 0, 0, 0, 5];
    expected.extend_from_slice(b"a.txt");
    expected.extend_from_slice(b"hello");
    assert_eq!(bytes, expected);
}

#[test]
fn an_empty_file_is_not_framed() {
    assert_eq!(frame("a.txt", b""), Err(SendError::EmptyFile));
}

#[test]
fn what_is_sent_is_what_is_written() {
    let contents: Vec<u8> = (0..5000u32).map(|i| (i * 7 % 256) as u8).collect();
    let stream = frame("data.bin", &contents).unwrap();
    let reception = receive(&stream, &Vec::new()).unwrap();
    assert_eq!(reception.written, contents);
    assert_eq!(reception.path, b"data.bin".to_vec());
    assert_eq!(reception.copied, 5000);
    assert_eq!(reception.outcome, Ok(()));
    assert_eq!(reception.header.total_size(), 5000);
    assert_eq!(reception.header.filename(), b"data.bin");
    assert_eq!(reception.header.filename_length(), 8);
}

#[test]
fn a_single_byte_goes_through() {
    let stream = frame("x", &[0]).unwrap();
    let reception = receive(&stream, &Vec::new()).unwrap();
    assert_eq!(reception.written, vec![0u8]);
    assert_eq!(reception.copied, 1);
    assert_eq!(reception.outcome, Ok(()));
}

#[test]
fn a_taken_name_is_numbered_on_arrival() {
    let stream = frame("notes.txt", b"abc").unwrap();
    let reception = receive(&stream, &names(&["notes.txt", "notes (1).txt"])).unwrap();
    assert_eq!(reception.path, b"notes (2).txt".to_vec());
    assert_eq!(reception.written, b"abc".to_vec());
    assert_eq!(reception.header.filename(), b"notes.txt");
}

#[test]
fn a_connection_that_closes_early_is_incomplete() {
    let stream = frame("big.iso", &[9u8; 2000]).unwrap();
    let cut = &stream[..stream.len() - 1];
    let reception = receive(cut, &Vec::new()).unwrap();
    assert_eq!(reception.outcome, Err(TransferError::Incomplete));
    assert_eq!(reception.copied, 1999);
    assert_eq!(reception.written, vec![9u8; 1999]);
}

#[test]
fn a_connection_that_closes_behind_the_header_is_incomplete() {
    let stream = encode_header(10, b"f");
    let reception = receive(&stream, &Vec::new()).unwrap();
    assert_eq!(reception.outcome, Err(TransferError::Incomplete));
    assert_eq!(reception.copied, 0);
    assert_eq!(reception.written, Vec::<u8>::new());
}

#[test]
fn bytes_beyond_the_announced_size_are_written_and_not_counted() {
    let mut stream = encode_header(3, b"f");
    stream.extend_from_slice(b"abcdef");
    let reception = receive(&stream, &Vec::new()).unwrap();
    assert_eq!(reception.copied, 3);
    assert_eq!(reception.written, b"abcdef".to_vec());
    assert_eq!(reception.outcome, Ok(()));
}

#[test]
fn a_stream_without_a_whole_header_is_refused() {
    let stream = frame("name.txt", b"abc").unwrap();
    assert_eq!(receive(&stream[..10], &Vec::new()), Err(ReceiveError::Protocol(ProtocolError::Truncated)));
    assert_eq!(receive(&stream[..20], &Vec::new()), Err(ReceiveError::Protocol(ProtocolError::Truncated)));
    assert_eq!(receive(&[], &Vec::new()), Err(ReceiveError::Protocol(ProtocolError::Truncated)));
}

#[test]
fn a_stream_with_a_name_that_is_not_utf8_is_refused() {
    let mut stream = encode_header(1, &[0xc3, 0x28]);
    stream.push(1);
    assert_eq!(receive(&stream, &Vec::new()), Err(ReceiveError::Protocol(ProtocolError::InvalidEncoding)));
}

#[test]
fn one_failed_connection_leaves_the_next_alone() {
    let good = frame("a", b"payload").unwrap();
    let bad = &good[..good.len() - 3];
    let first = receive(bad, &Vec::new()).unwrap();
    assert_eq!(first.outcome, Err(TransferError::Incomplete));
    let second = receive(&good, &names(&["a"])).unwrap();
    assert_eq!(second.outcome, Ok(()));
    assert_eq!(second.path, b"a (1)".to_vec());
    assert_eq!(second.written, b"payload".to_vec());
}
