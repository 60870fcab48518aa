use push_decode::encoders::{BytesEncoder, IntEncoder, IterEncoder};
use push_decode::{Encoder, EncoderExt};

fn collect(encoder: impl Encoder) -> Vec<u8> {
    let mut buf = Vec::new();
    encoder.write_to_vec(&mut buf);
    buf
}

#[test]
fn bytes_empty() {
    let encoder = BytesEncoder::new([]);
    let mut buf = Vec::new();
    encoder.write_to_vec(&mut buf);
    assert_eq!(buf, []);
}

#[test]
fn bytes_one() {
    let encoder = BytesEncoder::new([42]);
    let mut buf = Vec::new();
    encoder.write_to_vec(&mut buf);
    assert_eq!(buf, [42]);
}

#[test]
fn chain() {
    let encoder = BytesEncoder::new([1]).chain(BytesEncoder::new([2]));
    let mut buf = Vec::new();
    encoder.write_to_vec(&mut buf);
    assert_eq!(buf, [1, 2]);
}

#[test]
fn then_combinator() {
    let encoder = BytesEncoder::new([1]).then_with(|| BytesEncoder::new([2]));
    let mut buf = Vec::new();
    encoder.write_to_vec(&mut buf);
    assert_eq!(buf, [1, 2]);
}

#[test]
fn be() {
    let encoder = IntEncoder::new_be(1u32);
    let mut buf = Vec::new();
    encoder.write_to_vec(&mut buf);
    assert_eq!(buf, [0, 0, 0, 1]);
}

#[test]
fn le() {
    let encoder = IntEncoder::new_le(1u32);
    let mut buf = Vec::new();
    encoder.write_to_vec(&mut buf);
    assert_eq!(buf, [1, 0, 0, 0]);
}

#[test]
fn empty_iter() {
    let items: Vec<BytesEncoder<[u8; 1]>> = Vec::new();
    let encoder = IterEncoder::new(items);
    assert_eq!(collect(encoder), Vec::<u8>::new());
}

#[test]
fn iter_of_empty_arrays() {
    let encoder = IterEncoder::new(vec![BytesEncoder::new([0u8; 0])]);
    assert_eq!(collect(encoder), Vec::<u8>::new());
}

#[test]
fn iter_one() {
    let encoder = IterEncoder::new(vec![BytesEncoder::single_byte(1)]);
    assert_eq!(collect(encoder), vec![1u8]);
}

#[test]
fn two_iterations() {
    let encoder = IterEncoder::new(vec![BytesEncoder::new([1u8; 1]), BytesEncoder::new([2u8; 1])]);
    assert_eq!(collect(encoder), vec![1u8, 2]);
}

#[test]
fn two_empty_one_nonempty() {
    let items = vec![
        BytesEncoder::new(&[] as &[u8]),
        BytesEncoder::new(&[] as &[u8]),
        BytesEncoder::new(&[1u8] as &[u8]),
    ];
    let encoder = IterEncoder::new(items);
    assert_eq!(collect(encoder), vec![1u8]);
}

#[test]
fn one_nonempty_two_empty_one_non_empty() {
    let items = vec![
        BytesEncoder::new(&[1u8] as &[u8]),
        BytesEncoder::new(&[] as &[u8]),
        BytesEncoder::new(&[] as &[u8]),
        BytesEncoder::new(&[2u8] as &[u8]),
    ];
    let encoder = IterEncoder::new(items);
    assert_eq!(collect(encoder), vec![1u8, 2]);
}

#[test]
fn iter_never_exposes_empty_chunks() {
    // Every chunk observed while draining must be non-empty, even though the
    // items mix empty and non-empty payloads.
    let items = vec![
        BytesEncoder::new(&[] as &[u8]),
        BytesEncoder::new(&[] as &[u8]),
        BytesEncoder::new(&[7u8] as &[u8]),
        BytesEncoder::new(&[8u8, 9u8] as &[u8]),
    ];
    let mut encoder = IterEncoder::new(items);
    let mut seen = Vec::new();
    while !encoder.encoded_chunk().is_empty() {
        let chunk = encoder.encoded_chunk();
        assert!(!chunk.is_empty());
        seen.extend_from_slice(chunk);
        if !encoder.next() {
            break;
        }
    }
    assert_eq!(seen, [7, 8, 9]);
}

#[test]
fn write_to_slice_writes_in_place() {
    let encoder = BytesEncoder::new([1u8, 2]).chain(BytesEncoder::new([3u8]));
    let mut buf = vec![0u8; 5];
    let end = encoder.write_to_slice(&mut buf, 1).unwrap();
    assert_eq!(end, 4);
    assert_eq!(buf, [0, 1, 2, 3, 0]);
}

#[test]
fn write_to_slice_reports_overflow() {
    let encoder = BytesEncoder::new([1u8, 2, 3]);
    let mut buf = vec![0u8; 4];
    let err = encoder.write_to_slice(&mut buf, 2).unwrap_err();
    assert_eq!(err.bytes_past_end, 1);
}
