use std::collections::VecDeque;
use std::io::Cursor;

use connection::error::ConnectionError;
use connection::framing::{classify, Decoded, Fill, FrameReader};
use serde::de::DeserializeOwned;
use serde::Serialize;

fn encode<T: Serialize + ?Sized>(value: &T) -> Vec<u8> {
    bincode::serialize(value).unwrap()
}

fn decode_front<T: DeserializeOwned>(bytes: &[u8]) -> Decoded<T> {
    let mut cursor = Cursor::new(bytes);
    let result = bincode::deserialize_from(&mut cursor);
    let consumed = cursor.position() as usize;
    classify(result.map(|value| (value, consumed)))
}

/// One receive call: decode what is buffered, and read the next chunk while
/// the decoder asks for more. An exhausted transport reads as empty.
fn receive<T: DeserializeOwned>(
    reader: &mut FrameReader,
    chunks: &mut VecDeque<Vec<u8>>,
    reads: &mut usize,
) -> Result<Option<T>, ConnectionError> {
    loop {
        let outcome = decode_front::<T>(reader.pending());
        if let Some(value) = reader.settle(outcome)? {
            return Ok(Some(value));
        }
        let chunk = chunks.pop_front().unwrap_or_default();
        *reads += 1;
        if reader.fill(&chunk)? == Fill::EndOfStream {
            return Ok(None);
        }
    }
}

fn receive_all<T: DeserializeOwned>(chunks: Vec<Vec<u8>>) -> Result<Option<T>, ConnectionError> {
    let mut reader = FrameReader::new();
    let mut queue: VecDeque<Vec<u8>> = chunks.into_iter().collect();
    let mut reads: usize = 0;
    receive(&mut reader, &mut queue, &mut reads)
}

#[test]
fn write_and_read_message() {
    let message: (u32, String, Vec<u8>) = (123, "Test Message".to_string(), vec![1, 2, 3, 4, 5]);
    let bytes = encode(&message);
    let parsed: (u32, String, Vec<u8>) = receive_all(vec![bytes]).unwrap().unwrap();
    assert_eq!(message, parsed);
}

#[test]
fn send_and_receive_hello_world() {
    let bytes = encode("Hello, world!");
    let parsed: String = receive_all(vec![bytes]).unwrap().unwrap();
    assert_eq!("Hello, world!", parsed);
}

#[test]
fn round_trip_of_several_types() {
    let number: u64 = 0x0102_0304_0506_0708;
    assert_eq!(receive_all::<u64>(vec![encode(&number)]).unwrap(), Some(number));
    let words: Vec<String> = vec!["a".to_string(), String::new(), "ccc".to_string()];
    assert_eq!(receive_all::<Vec<String>>(vec![encode(&words)]).unwrap(), Some(words));
    let nested: (i8, Option<(bool, Vec<u16>)>) = (-3, Some((true, vec![7, 65535])));
    assert_eq!(receive_all::<(i8, Option<(bool, Vec<u16>)>)>(vec![encode(&nested)]).unwrap(), Some(nested));
}

#[test]
fn partial_delivery_one_byte_at_a_time() {
    let bytes = encode("Hello, world!");
    let chunks: Vec<Vec<u8>> = bytes.iter().map(|b| vec![*b]).collect();
    let mut reader = FrameReader::new();
    let mut queue: VecDeque<Vec<u8>> = chunks.into_iter().collect();
    let mut reads: usize = 0;
    let parsed: Option<String> = receive(&mut reader, &mut queue, &mut reads).unwrap();
    assert_eq!(parsed, Some("Hello, world!".to_string()));
    assert_eq!(reads, bytes.len());
    assert!(queue.is_empty());
    assert_eq!(reader.pending_len(), 0);
}

#[test]
fn partial_delivery_uneven_fragments() {
    let message: (u32, String, Vec<u8>) = (9, "fragments".to_string(), vec![0; 40]);
    let bytes = encode(&message);
    let chunks = vec![bytes[..3].to_vec(), bytes[3..20].to_vec(), bytes[20..].to_vec()];
    let mut reader = FrameReader::with_capacity(2);
    let mut queue: VecDeque<Vec<u8>> = chunks.into_iter().collect();
    let mut reads: usize = 0;
    let parsed: Option<(u32, String, Vec<u8>)> = receive(&mut reader, &mut queue, &mut reads).unwrap();
    assert_eq!(parsed, Some(message));
    assert_eq!(reads, 3);
}

#[test]
fn orderly_close_yields_no_value() {
    let parsed = receive_all::<String>(vec![]).unwrap();
    assert_eq!(parsed, None);
}

#[test]
fn reset_mid_message() {
    let bytes = encode("Hello, world!");
    let truncated = bytes[..bytes.len() - 1].to_vec();
    match receive_all::<String>(vec![truncated]) {
        Err(ConnectionError::ConnectionReset(text)) => assert_eq!(text, "connection reset by peer"),
        other => panic!("expected a reset, got {:?}", other),
    }
}

#[test]
fn pipelined_messages_arrive_in_order() {
    let mut bytes = encode("first");
    bytes.extend(encode("second"));
    let mut reader = FrameReader::new();
    let mut queue: VecDeque<Vec<u8>> = vec![bytes].into_iter().collect();
    let mut reads: usize = 0;
    let first: Option<String> = receive(&mut reader, &mut queue, &mut reads).unwrap();
    assert_eq!(first, Some("first".to_string()));
    assert_eq!(reader.pending(), &encode("second")[..]);
    let second: Option<String> = receive(&mut reader, &mut queue, &mut reads).unwrap();
    assert_eq!(second, Some("second".to_string()));
    assert_eq!(reader.pending_len(), 0);
    let end: Option<String> = receive(&mut reader, &mut queue, &mut reads).unwrap();
    assert_eq!(end, None);
}

#[test]
fn malformed_bytes_fail_with_a_decoding_error() {
    let mut bytes = 1u64.to_le_bytes().to_vec();
    bytes.push(0xff);
    match receive_all::<String>(vec![bytes]) {
        Err(ConnectionError::BincodeError(_)) => {}
        other => panic!("expected a decoding error, got {:?}", other),
    }
}

#[test]
fn classify_sorts_bincode_results() {
    let bytes = encode(&77u32);
    match decode_front::<u32>(&bytes) {
        Decoded::Complete { value, consumed } => {
            assert_eq!(value, 77);
            assert_eq!(consumed, 4);
        }
        other => panic!("expected a value, got {:?}", other),
    }
    assert!(matches!(decode_front::<u32>(&bytes[..2]), Decoded::Incomplete));
    assert!(matches!(decode_front::<u32>(&[]), Decoded::Incomplete));
    assert!(matches!(decode_front::<bool>(&[2]), Decoded::Malformed(_)));
}

#[test]
fn settle_drains_only_the_consumed_prefix() {
    let mut reader = FrameReader::new();
    assert_eq!(reader.fill(&[1, 2, 3, 4, 5]).unwrap(), Fill::Appended);
    let taken = reader.settle(Decoded::Complete { value: 'x', consumed: 2 }).unwrap();
    assert_eq!(taken, Some('x'));
    assert_eq!(reader.pending(), &[3, 4, 5]);
    let none = reader.settle(Decoded::<char>::Incomplete).unwrap();
    assert_eq!(none, None);
    assert_eq!(reader.pending(), &[3, 4, 5]);
}

#[test]
fn fill_appends_and_reports_the_end_of_the_stream() {
    let mut reader = FrameReader::with_capacity(0);
    assert_eq!(reader.fill(&[]).unwrap(), Fill::EndOfStream);
    assert_eq!(reader.pending_len(), 0);
    assert_eq!(reader.fill(&[9, 8]).unwrap(), Fill::Appended);
    assert_eq!(reader.fill(&[7]).unwrap(), Fill::Appended);
    assert_eq!(reader.pending(), &[9, 8, 7]);
    assert!(matches!(reader.fill(&[]), Err(ConnectionError::ConnectionReset(_))));
    assert_eq!(reader.pending(), &[9, 8, 7]);
}

#[test]
fn errors_convert_from_io_and_bincode() {
    let io = std::io::Error::new(std::io::ErrorKind::BrokenPipe, "gone");
    assert!(matches!(ConnectionError::from(io), ConnectionError::IoError(_)));
    let kind: bincode::Error = Box::new(bincode::ErrorKind::SizeLimit);
    match ConnectionError::from(kind) {
        ConnectionError::BincodeError(inner) => assert!(matches!(**inner, bincode::ErrorKind::SizeLimit)),
        other => panic!("expected a bincode error, got {:?}", other),
    }
}
