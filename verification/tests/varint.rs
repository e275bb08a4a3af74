use pixelroxy::libs::connect::package::{BufferIndex, VarintFeed, VarintReader};
use pixelroxy::libs::varint::{encode_varint, parse_varint};

#[test]
fn encode_small_numbers() {
    assert_eq!(encode_varint(0), vec![0x00]);
    assert_eq!(encode_varint(1), vec![0x01]);
    assert_eq!(encode_varint(127), vec![0x7f]);
}

#[test]
fn encode_multi_byte_numbers() {
    assert_eq!(encode_varint(128), vec![0x80, 0x01]);
    assert_eq!(encode_varint(300), vec![0xac, 0x02]);
    assert_eq!(encode_varint(25565), vec![0xdd, 0xc7, 0x01]);
    assert_eq!(encode_varint(2097151), vec![0xff, 0xff, 0x7f]);
}

#[test]
fn encode_largest_number_takes_ten_bytes() {
    let bytes = encode_varint(u64::MAX as usize);
    assert_eq!(bytes.len(), 10);
    assert_eq!(bytes[9], 0x01);
    assert!(bytes[..9].iter().all(|b| *b == 0xff));
}

#[test]
fn parse_reads_and_advances() {
    let data = [0xdd, 0xc7, 0x01, 0x42];
    let mut index = BufferIndex(0);
    assert_eq!(parse_varint(&data, &mut index), Some(25565));
    assert_eq!(index.0, 3);
}

#[test]
fn parse_at_offset() {
    let data = [0x09, 0xac, 0x02, 0x07];
    let mut index = BufferIndex(1);
    assert_eq!(parse_varint(&data, &mut index), Some(300));
    assert_eq!(index.0, 3);
    assert_eq!(parse_varint(&data, &mut index), Some(7));
    assert_eq!(index.0, 4);
}

#[test]
fn parse_incomplete_moves_one_byte() {
    let data = [0x80, 0x80];
    let mut index = BufferIndex(0);
    assert_eq!(parse_varint(&data, &mut index), None);
    assert_eq!(index.0, 1);
}

#[test]
fn parse_past_the_end() {
    let data = [0x01];
    let mut index = BufferIndex(5);
    assert_eq!(parse_varint(&data, &mut index), None);
    assert_eq!(index.0, 6);
}

#[test]
fn parse_too_long() {
    let data = [0x80u8; 12];
    let mut index = BufferIndex(0);
    assert_eq!(parse_varint(&data, &mut index), None);
    assert_eq!(index.0, 1);
}

#[test]
fn parse_tenth_byte_keeps_low_bits() {
    let mut data = vec![0x80u8; 9];
    data.push(0x03);
    let mut index = BufferIndex(0);
    assert_eq!(parse_varint(&data, &mut index), Some(1u64 << 63));
    assert_eq!(index.0, 10);
}

#[test]
fn roundtrip_on_concrete_values() {
    for v in [0usize, 1, 127, 128, 255, 300, 16383, 16384, 25565, 1 << 35, u32::MAX as usize, u64::MAX as usize] {
        let mut data = vec![0xaa, 0xbb];
        data.extend(encode_varint(v));
        data.push(0x99);
        let mut index = BufferIndex(2);
        assert_eq!(parse_varint(&data, &mut index), Some(v as u64));
        assert_eq!(index.0, data.len() - 1);
    }
}

#[test]
fn buffer_index_moves() {
    let mut index = BufferIndex(4);
    assert_eq!(index.get(), 4);
    assert_eq!(index.0, 5);
    assert_eq!(index.get_len(3), 5);
    assert_eq!(index.0, 8);
    assert_eq!(index.just_get(), 8);
    assert_eq!(index.0, 8);
    index.set(2);
    assert_eq!(index.just_get(), 2);
}

fn read_all(bytes: &[u8]) -> VarintFeed {
    let mut reader = VarintReader::new();
    let mut events: Vec<Option<u8>> = bytes.iter().map(|b| Some(*b)).collect();
    events.push(None);
    for event in events {
        match reader.feed(event) {
            VarintFeed::More(next) => reader = next,
            other => return other,
        }
    }
    unreachable!()
}

#[test]
fn reader_reads_an_encoding() {
    match read_all(&encode_varint(25565)) {
        VarintFeed::Value(v) => assert_eq!(v, 25565),
        other => panic!("unexpected {:?}", matches!(other, VarintFeed::Closed)),
    }
}

#[test]
fn reader_stops_at_end_of_number() {
    match read_all(&[0x05, 0x80]) {
        VarintFeed::Value(v) => assert_eq!(v, 5),
        _ => panic!("expected a value"),
    }
}

#[test]
fn reader_reports_closed_stream() {
    assert!(matches!(read_all(&[0x80, 0x80]), VarintFeed::Closed));
    assert!(matches!(read_all(&[]), VarintFeed::Closed));
}

#[test]
fn reader_reports_too_long() {
    assert!(matches!(read_all(&[0xffu8; 11]), VarintFeed::TooLong));
}

fn read_counting(bytes: &[u8]) -> (Option<u64>, usize) {
    let mut reader = VarintReader::new();
    let mut consumed = 0;
    loop {
        let event = bytes.get(consumed).copied();
        if event.is_some() {
            consumed += 1;
        }
        match reader.feed(event) {
            VarintFeed::More(next) => reader = next,
            VarintFeed::Value(v) => return (Some(v), consumed),
            _ => return (None, consumed),
        }
    }
}

#[test]
fn reader_consumes_exactly_the_varint() {
    for v in [0usize, 5, 127, 128, 25565, 1 << 40, u64::MAX as usize] {
        let encoded = encode_varint(v);
        let mut stream = encoded.clone();
        stream.extend_from_slice(&[0x80, 0x01, 0x02]);
        assert_eq!(read_counting(&stream), (Some(v as u64), encoded.len()));
    }
    assert_eq!(read_counting(&[0xffu8; 15]), (None, 10));
    assert_eq!(read_counting(&[0x80, 0x80]), (None, 2));
}
