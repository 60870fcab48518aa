use push_decode::decoders::{ByteVecDecoder, IntDecoder, U8Decoder};
use push_decode::encoders::{BytesEncoder, IntEncoder};
use push_decode::ints::{BigEndian, Int, LittleEndian};
use push_decode::{
    sync_decode_with_zeroed_buffer, Decoder, DecoderExt, EncoderExt, ReadError,
};

#[test]
fn tracker_single_write_collects_everything() {
    let encoder = BytesEncoder::new([1u8, 2, 3]).chain(BytesEncoder::new([4u8, 5]));
    let mut tracker = encoder.track_position();
    let mut out = Vec::new();
    loop {
        let chunk = tracker.encoded_chunk();
        if chunk.is_empty() {
            break;
        }
        let n = chunk.len();
        out.extend_from_slice(chunk);
        tracker.consume(n);
    }
    assert_eq!(out, [1, 2, 3, 4, 5]);
}

#[test]
fn tracker_split_writes_collect_the_same_bytes() {
    // Simulate short writes: consume one byte at a time.  The total stream
    // must equal the one an unsplit write produces.
    let encoder = BytesEncoder::new([1u8, 2, 3]).chain(BytesEncoder::new([4u8, 5]));
    let mut tracker = encoder.track_position();
    let mut out = Vec::new();
    loop {
        let chunk = tracker.encoded_chunk();
        if chunk.is_empty() {
            break;
        }
        out.push(chunk[0]);
        tracker.consume(1);
    }
    assert_eq!(out, [1, 2, 3, 4, 5]);
}

#[test]
fn tracker_is_inert_after_the_end() {
    let encoder = BytesEncoder::new([9u8]);
    let mut tracker = encoder.track_position();
    tracker.consume(1);
    assert!(tracker.encoded_chunk().is_empty());
    tracker.consume(0);
    assert!(tracker.encoded_chunk().is_empty());
}

#[test]
fn sync_decode_reads_in_bounded_chunks() {
    let source: Vec<u8> = vec![10, 20, 30, 40];
    let mut pos = 0usize;
    let reader = |want: usize| -> Result<Vec<u8>, ()> {
        let n = want.min(source.len() - pos).min(2);
        let chunk = source[pos..pos + n].to_vec();
        pos += n;
        Ok(chunk)
    };
    let (r, _input) = sync_decode_with_zeroed_buffer(ByteVecDecoder::new(4), 64, reader);
    assert_eq!(r.unwrap(), vec![10, 20, 30, 40]);
}

#[test]
fn sync_decode_reports_missing_bytes() {
    let reader = |_want: usize| -> Result<Vec<u8>, ()> { Ok(Vec::new()) };
    let (r, _input) = sync_decode_with_zeroed_buffer(ByteVecDecoder::new(2), 64, reader);
    match r.unwrap_err() {
        ReadError::Decode(e) => assert_eq!(e.missing, 2),
        ReadError::Read(_) => panic!("wrong error"),
    }
}

#[test]
fn sync_decode_passes_reader_errors_through() {
    let reader = |_want: usize| -> Result<Vec<u8>, i32> { Err(-7) };
    let (r, _input) = sync_decode_with_zeroed_buffer(ByteVecDecoder::new(2), 64, reader);
    match r.unwrap_err() {
        ReadError::Read(e) => assert_eq!(e, -7),
        ReadError::Decode(_) => panic!("wrong error"),
    }
}

#[test]
fn read_error_conversions() {
    let read: ReadError<u8, u16> = ReadError::Read(3);
    assert_eq!(read.convert_either::<u32>(), 3u32);
    let decode: ReadError<u8, u16> = ReadError::Decode(9);
    assert_eq!(decode.convert_either::<u32>(), 9u32);
    let mapped = ReadError::<u8, u16>::Read(5).map_read(|e| e + 1);
    assert_eq!(mapped, ReadError::Read(6u16));
    let mapped = ReadError::<u8, u16>::Decode(5).map_decode(|e| e + 2);
    assert_eq!(mapped, ReadError::Decode(7u8));
    let decode_only: ReadError<u8, std::convert::Infallible> = ReadError::Decode(1);
    assert_eq!(decode_only.into_decode(), 1);
    let read_only: ReadError<std::convert::Infallible, u8> = ReadError::Read(2);
    assert_eq!(read_only.into_read(), 2);
}

#[test]
fn int_round_trips_through_bytes() {
    let encoder = IntEncoder::new_be(0x01020304u32);
    let mut buf = Vec::new();
    encoder.write_to_vec(&mut buf);
    assert_eq!(buf, [1, 2, 3, 4]);
    let mut decoder = IntDecoder::<u32, BigEndian>::new();
    assert_eq!(decoder.bytes_received(&buf).unwrap(), 4);
    assert_eq!(decoder.end().unwrap(), 0x01020304u32);

    let encoder = IntEncoder::new_le(-2i16);
    let mut buf = Vec::new();
    encoder.write_to_vec(&mut buf);
    assert_eq!(buf, [0xFE, 0xFF]);
    let mut decoder = IntDecoder::<i16, LittleEndian>::new();
    assert_eq!(decoder.bytes_received(&buf).unwrap(), 2);
    assert_eq!(decoder.end().unwrap(), -2i16);
}

#[test]
fn int_trait_conversions_are_exact() {
    assert_eq!(<u16 as Int>::to_le_bytes(0x0102), vec![2, 1]);
    assert_eq!(<u16 as Int>::to_be_bytes(0x0102), vec![1, 2]);
    assert_eq!(<u16 as Int>::from_le_bytes(&[2, 1]), 0x0102);
    assert_eq!(<u16 as Int>::from_be_bytes(&[1, 2]), 0x0102);
    assert_eq!(<i8 as Int>::to_be_bytes(-1), vec![0xFF]);
    assert_eq!(<i8 as Int>::from_be_bytes(&[0xFF]), -1);
    let mut min_bytes = vec![0u8; 16];
    min_bytes[0] = 0x80;
    assert_eq!(<i128 as Int>::to_be_bytes(i128::MIN), min_bytes);
    assert_eq!(<i128 as Int>::from_be_bytes(&min_bytes), i128::MIN);
    assert_eq!(<u128 as Int>::to_le_bytes(u128::MAX), vec![0xFF; 16]);
    assert_eq!(<u128 as Int>::from_le_bytes(&[0xFF; 16]), u128::MAX);
}

#[test]
fn pair_round_trip_through_chain() {
    // Encode a pair with chained primitive encoders, decode it back with the
    // matching chain of decoders.
    let a = vec![1u8, 2, 3];
    let b = vec![4u8, 5];
    let encoder = BytesEncoder::new(a.clone()).chain(BytesEncoder::new(b.clone()));
    let mut wire = Vec::new();
    encoder.write_to_vec(&mut wire);
    assert_eq!(wire, [1, 2, 3, 4, 5]);
    let mut decoder = ByteVecDecoder::new(a.len()).chain(ByteVecDecoder::new(b.len()));
    assert_eq!(decoder.bytes_received(&wire).unwrap(), wire.len());
    assert_eq!(decoder.end().unwrap(), (a, b));
}

#[test]
fn length_prefixed_round_trip() {
    // A single-byte length prefix followed by the payload.
    let payload = vec![7u8, 8, 9];
    let encoder = BytesEncoder::single_byte(payload.len() as u8)
        .chain(BytesEncoder::new(payload.clone()));
    let mut wire = Vec::new();
    encoder.write_to_vec(&mut wire);
    assert_eq!(wire, [3, 7, 8, 9]);
    let mut decoder = U8Decoder::new().then_with(|len| ByteVecDecoder::new(len.into()));
    assert_eq!(decoder.bytes_received(&wire).unwrap(), 4);
    assert_eq!(decoder.end().unwrap(), payload);
}

#[test]
fn assume_buffered_wraps_and_unwraps() {
    let mut wrapped = push_decode::AssumeBuffered::new(vec![1u8, 2]);
    assert_eq!(wrapped.inner(), &vec![1u8, 2]);
    wrapped.inner_mut().push(3);
    assert_eq!(wrapped.into_inner(), vec![1, 2, 3]);
}
