use vg_core::protocol::{next_frame, Call};
use vg_core::text::{text_bytes, text_from_bytes};
use vg_core::wire::{put_blob, put_half, put_raw, put_word, same_bytes, Reader};

#[test]
fn words_are_little_endian() {
    let mut out = vec![0xee];
    put_word(&mut out, 0x0102030405060708);
    assert_eq!(out, vec![0xee, 8, 7, 6, 5, 4, 3, 2, 1]);
    let mut out = Vec::new();
    put_half(&mut out, 0x01020304);
    assert_eq!(out, vec![4, 3, 2, 1]);
}

#[test]
fn a_blob_is_its_length_and_its_bytes() {
    let mut out = Vec::new();
    put_blob(&mut out, &[7, 8, 9]);
    assert_eq!(out, vec![3, 0, 0, 0, 0, 0, 0, 0, 7, 8, 9]);
    let mut out = Vec::new();
    put_blob(&mut out, &[]);
    assert_eq!(out, vec![0; 8]);
    put_raw(&mut out, &[1, 2]);
    assert_eq!(out.len(), 10);
    assert_eq!(&out[8..], &[1, 2]);
}

#[test]
fn a_reader_reads_what_was_written() {
    let mut bytes = Vec::new();
    bytes.push(42);
    put_word(&mut bytes, u64::MAX - 1);
    put_half(&mut bytes, 77);
    put_blob(&mut bytes, b"abc");
    let mut reader = Reader::new(&bytes);
    assert_eq!(reader.remaining(), bytes.len());
    assert_eq!(reader.byte(), Some(42));
    assert_eq!(reader.word(), Some(u64::MAX - 1));
    assert_eq!(reader.half(), Some(77));
    assert_eq!(reader.blob(), Some(&b"abc"[..]));
    assert!(reader.is_empty());
    assert_eq!(reader.byte(), None);
    assert_eq!(reader.take(0), Some(&[][..]));
}

#[test]
fn a_reader_never_reads_past_the_end() {
    let bytes = [1u8, 2, 3];
    let mut reader = Reader::new(&bytes);
    assert_eq!(reader.word(), None);
    assert_eq!(reader.half(), None);
    assert_eq!(reader.take(4), None);
    assert_eq!(reader.take(usize::MAX), None);
    assert_eq!(reader.remaining(), 3);
    assert_eq!(reader.take(3), Some(&[1u8, 2, 3][..]));
    assert_eq!(reader.take(1), None);
}

#[test]
fn a_blob_that_announces_more_than_is_there_is_refused() {
    let mut reader = Reader::new(&[2, 0, 0, 0, 0, 0, 0, 0, 9]);
    assert_eq!(reader.blob(), None);
    let mut reader = Reader::new(&[0xff; 9]);
    assert_eq!(reader.blob(), None);
}

#[test]
fn expect_reads_past_a_matching_start_only() {
    let bytes = [1u8, 2, 3, 4];
    let mut reader = Reader::new(&bytes);
    assert!(!reader.expect(&[1, 3]));
    let mut reader = Reader::new(&bytes);
    assert!(!reader.expect(&[1, 2, 3, 4, 5]));
    let mut reader = Reader::new(&bytes);
    assert!(reader.expect(&[1, 2]));
    assert_eq!(reader.remaining(), 2);
    assert!(reader.expect(&[]));
    assert_eq!(reader.byte(), Some(3));
}

#[test]
fn same_bytes_compares_contents() {
    assert!(same_bytes(&[], &[]));
    assert!(same_bytes(&[1, 2, 3], &[1, 2, 3]));
    assert!(!same_bytes(&[1, 2, 3], &[1, 2]));
    assert!(!same_bytes(&[1, 2, 3], &[1, 2, 4]));
    assert!(!same_bytes(&[], &[0]));
}

#[test]
fn text_is_utf8() {
    let s = "héllo".to_string();
    assert_eq!(text_bytes(&s), "héllo".as_bytes());
    assert_eq!(text_from_bytes("héllo".as_bytes()), Some(s));
    assert_eq!(text_from_bytes(&[]), Some(String::new()));
}

#[test]
fn bytes_that_are_not_utf8_are_no_text() {
    assert_eq!(text_from_bytes(&[0xff]), None);
    assert_eq!(text_from_bytes(&[0xc0, 0x80]), None);
    assert_eq!(text_from_bytes(&[0xed, 0xa0, 0x80]), None);
    assert_eq!(text_from_bytes(&[b'a', 0xe2, 0x82]), None);
}

#[test]
fn a_frame_is_split_off_by_its_header() {
    let first = Call::Print("a".to_string()).encode();
    let second = Call::Present.encode();
    let mut stream = first.clone();
    stream.extend_from_slice(&second);
    let (head, rest) = next_frame(&stream).unwrap();
    assert_eq!(head, &first[..]);
    assert_eq!(rest, &second[..]);
    let (head, rest) = next_frame(rest).unwrap();
    assert_eq!(head, &second[..]);
    assert!(rest.is_empty());
    assert_eq!(next_frame(rest), None);
    assert_eq!(next_frame(&stream[..first.len() + 3]).unwrap().1.len(), 3);
    assert_eq!(next_frame(&first[..first.len() - 1]), None);
    assert_eq!(next_frame(&[0; 8]), None);
}

#[test]
fn a_stream_gives_its_calls_in_order() {
    let calls = vec![
        Call::Print("one".to_string()),
        Call::Present,
        Call::Draw { texture: "t".to_string(), position: vec![1, 2] },
    ];
    let mut stream = Vec::new();
    for call in &calls {
        stream.extend_from_slice(&call.encode());
    }
    assert_eq!(Call::decode_stream(&stream), calls);
    assert_eq!(Call::decode_stream(&[]), vec![]);
}

#[test]
fn a_stream_goes_on_behind_a_malformed_frame() {
    let mut stream = Call::Print("before".to_string()).encode();
    // An unknown tag with a payload of three bytes.
    stream.extend_from_slice(&[9, 3, 0, 0, 0, 0, 0, 0, 0, 1, 2, 3]);
    // A print whose text is not UTF-8.
    stream.extend_from_slice(&[0, 1, 0, 0, 0, 0, 0, 0, 0, 0xff]);
    stream.extend_from_slice(&Call::Print("after".to_string()).encode());
    assert_eq!(
        Call::decode_stream(&stream),
        vec![Call::Print("before".to_string()), Call::Print("after".to_string())]
    );
}

#[test]
fn a_stream_stops_at_a_cut_frame() {
    let mut stream = Call::Present.encode();
    let cut = Call::Print("lost".to_string()).encode();
    stream.extend_from_slice(&cut[..cut.len() - 1]);
    assert_eq!(Call::decode_stream(&stream), vec![Call::Present]);
}
