use push_decode::decoders::{ByteArrayDecoder, ByteVecDecoder, U8Decoder, Utf8StringDecoder};
use push_decode::{Decoder, DecoderExt, KnownMinLenDecoder};

#[test]
fn byte_array_empty() {
    let mut decoder = ByteArrayDecoder::<0>::new();
    assert_eq!(decoder.bytes_received(&[42]).unwrap(), 0);
    decoder.end().unwrap();
}

#[test]
fn byte_array_empty_immediate_end() {
    let decoder = ByteArrayDecoder::<0>::new();
    decoder.end().unwrap();
}

#[test]
fn byte_array_one() {
    let mut decoder = ByteArrayDecoder::<1>::new();
    assert_eq!(decoder.bytes_received(&[42, 21]).unwrap(), 1);
    assert_eq!(decoder.end().unwrap(), [42]);
}

#[test]
fn byte_array_one_immediate_end() {
    let mut decoder = ByteArrayDecoder::<1>::new();
    assert_eq!(decoder.bytes_received(&[42]).unwrap(), 1);
    assert_eq!(decoder.end().unwrap(), [42]);
}

#[test]
fn byte_array_two_single() {
    let mut decoder = ByteArrayDecoder::<2>::new();
    assert_eq!(decoder.bytes_received(&[42, 21]).unwrap(), 2);
    assert_eq!(decoder.end().unwrap(), [42, 21]);
}

#[test]
fn byte_array_two_split() {
    let mut decoder = ByteArrayDecoder::<2>::new();
    assert_eq!(decoder.bytes_received(&[42]).unwrap(), 1);
    assert_eq!(decoder.bytes_received(&[21]).unwrap(), 1);
    assert_eq!(decoder.end().unwrap(), [42, 21]);
}

#[test]
fn byte_array_two_split_extra() {
    let mut decoder = ByteArrayDecoder::<2>::new();
    assert_eq!(decoder.bytes_received(&[42]).unwrap(), 1);
    assert_eq!(decoder.bytes_received(&[21, 47]).unwrap(), 1);
    assert_eq!(decoder.end().unwrap(), [42, 21]);
}

#[test]
fn byte_vec_empty() {
    let mut decoder = ByteVecDecoder::new(0);
    assert_eq!(decoder.bytes_received(&[42]).unwrap(), 0);
    decoder.end().unwrap();
}

#[test]
fn byte_vec_empty_immediate_end() {
    let decoder = ByteVecDecoder::new(0);
    decoder.end().unwrap();
}

#[test]
fn byte_vec_one() {
    let mut decoder = ByteVecDecoder::new(1);
    assert_eq!(decoder.bytes_received(&[42, 21]).unwrap(), 1);
    assert_eq!(decoder.end().unwrap(), [42]);
}

#[test]
fn byte_vec_one_immediate_end() {
    let mut decoder = ByteVecDecoder::new(1);
    assert_eq!(decoder.bytes_received(&[42]).unwrap(), 1);
    assert_eq!(decoder.end().unwrap(), [42]);
}

#[test]
fn byte_vec_two_single() {
    let mut decoder = ByteVecDecoder::new(2);
    assert_eq!(decoder.bytes_received(&[42, 21]).unwrap(), 2);
    assert_eq!(decoder.end().unwrap(), [42, 21]);
}

#[test]
fn byte_vec_two_split() {
    let mut decoder = ByteVecDecoder::new(2);
    assert_eq!(decoder.bytes_received(&[42]).unwrap(), 1);
    assert_eq!(decoder.bytes_received(&[21]).unwrap(), 1);
    assert_eq!(decoder.end().unwrap(), [42, 21]);
}

#[test]
fn byte_vec_two_split_extra() {
    let mut decoder = ByteVecDecoder::new(2);
    assert_eq!(decoder.bytes_received(&[42]).unwrap(), 1);
    assert_eq!(decoder.bytes_received(&[21, 47]).unwrap(), 1);
    assert_eq!(decoder.end().unwrap(), [42, 21]);
}

#[test]
fn chain_chain_all() {
    let mut decoder = ByteVecDecoder::new(1).chain(ByteVecDecoder::new(2));
    assert_eq!(decoder.bytes_received(&[1, 2, 3]).unwrap(), 3);
    assert_eq!(decoder.end().unwrap(), (vec![1], vec![2, 3]));
}

#[test]
fn chain_chain_extra() {
    let mut decoder = ByteVecDecoder::new(1).chain(ByteVecDecoder::new(2));
    assert_eq!(decoder.bytes_received(&[1, 2, 3, 4]).unwrap(), 3);
    assert_eq!(decoder.end().unwrap(), (vec![1], vec![2, 3]));
}

#[test]
fn chain_chain_split() {
    let mut decoder = ByteVecDecoder::new(1).chain(ByteVecDecoder::new(2));
    assert_eq!(decoder.bytes_received(&[1]).unwrap(), 1);
    assert_eq!(decoder.bytes_received(&[2, 3]).unwrap(), 2);
    assert_eq!(decoder.end().unwrap(), (vec![1], vec![2, 3]));
}

#[test]
fn chain_chain_split_extra() {
    let mut decoder = ByteVecDecoder::new(1).chain(ByteVecDecoder::new(2));
    assert_eq!(decoder.bytes_received(&[1]).unwrap(), 1);
    assert_eq!(decoder.bytes_received(&[2, 3, 4]).unwrap(), 2);
    assert_eq!(decoder.end().unwrap(), (vec![1], vec![2, 3]));
}

#[test]
fn then_chain_all() {
    let mut decoder = U8Decoder::new().then_with(|len| ByteVecDecoder::new(len.into()));
    assert_eq!(decoder.bytes_received(&[2, 3, 4]).unwrap(), 3);
    assert_eq!(decoder.end().unwrap(), vec![3, 4]);
}

#[test]
fn then_chain_extra() {
    let mut decoder = U8Decoder::new().then_with(|len| ByteVecDecoder::new(len.into()));
    assert_eq!(decoder.bytes_received(&[2, 3, 4, 5]).unwrap(), 3);
    assert_eq!(decoder.end().unwrap(), vec![3, 4]);
}

#[test]
fn then_chain_split() {
    let mut decoder = U8Decoder::new().then_with(|len| ByteVecDecoder::new(len.into()));
    assert_eq!(decoder.bytes_received(&[2]).unwrap(), 1);
    assert_eq!(decoder.bytes_received(&[3, 4]).unwrap(), 2);
    assert_eq!(decoder.end().unwrap(), vec![3, 4]);
}

#[test]
fn then_chain_split_extra() {
    let mut decoder = U8Decoder::new().then_with(|len| ByteVecDecoder::new(len.into()));
    assert_eq!(decoder.bytes_received(&[2]).unwrap(), 1);
    assert_eq!(decoder.bytes_received(&[3, 4, 5]).unwrap(), 2);
    assert_eq!(decoder.end().unwrap(), vec![3, 4]);
}

#[test]
fn then_try_chain_all() {
    let mut decoder = U8Decoder::new().then_with(|len| ByteVecDecoder::new(len.into()));
    assert_eq!(decoder.bytes_received(&[2, 3, 4]).unwrap(), 3);
    assert_eq!(decoder.end().unwrap(), vec![3, 4]);
}

#[test]
fn then_try_chain_extra() {
    let mut decoder = U8Decoder::new().then_with(|len| ByteVecDecoder::new(len.into()));
    assert_eq!(decoder.bytes_received(&[2, 3, 4, 5]).unwrap(), 3);
    assert_eq!(decoder.end().unwrap(), vec![3, 4]);
}

#[test]
fn then_try_chain_split() {
    let mut decoder = U8Decoder::new().then_with(|len| ByteVecDecoder::new(len.into()));
    assert_eq!(decoder.bytes_received(&[2]).unwrap(), 1);
    assert_eq!(decoder.bytes_received(&[3, 4]).unwrap(), 2);
    assert_eq!(decoder.end().unwrap(), vec![3, 4]);
}

#[test]
fn then_try_chain_split_extra() {
    let mut decoder = U8Decoder::new().then_with(|len| ByteVecDecoder::new(len.into()));
    assert_eq!(decoder.bytes_received(&[2]).unwrap(), 1);
    assert_eq!(decoder.bytes_received(&[3, 4, 5]).unwrap(), 2);
    assert_eq!(decoder.end().unwrap(), vec![3, 4]);
}

#[test]
fn u8_decoder_empty() {
    let decoder = U8Decoder::new();
    decoder.end().unwrap_err();
}

#[test]
fn u8_decoder_one() {
    let mut decoder = U8Decoder::new();
    assert_eq!(decoder.bytes_received(&[42]).unwrap(), 1);
    assert_eq!(decoder.end().unwrap(), 42);
}

#[test]
fn two() {
    let mut decoder = U8Decoder::new();
    assert_eq!(decoder.bytes_received(&[42, 21]).unwrap(), 1);
    assert_eq!(decoder.end().unwrap(), 42);
}

#[test]
fn utf8_string_empty() {
    let mut decoder = Utf8StringDecoder::new(0);
    assert_eq!(decoder.bytes_received(&[42]).unwrap(), 0);
    assert_eq!(decoder.end().unwrap(), "");
}

#[test]
fn utf8_string_empty_immediate_end() {
    let decoder = Utf8StringDecoder::new(0);
    assert_eq!(decoder.end().unwrap(), "");
}

#[test]
fn utf8_string_one() {
    let mut decoder = Utf8StringDecoder::new(1);
    assert_eq!(decoder.bytes_received(b"xy").unwrap(), 1);
    assert_eq!(decoder.end().unwrap(), "x");
}

#[test]
fn utf8_string_one_immediate_end() {
    let mut decoder = Utf8StringDecoder::new(1);
    assert_eq!(decoder.bytes_received(b"x").unwrap(), 1);
    assert_eq!(decoder.end().unwrap(), "x");
}

#[test]
fn utf8_string_two_single() {
    let mut decoder = Utf8StringDecoder::new(2);
    assert_eq!(decoder.bytes_received(b"xy").unwrap(), 2);
    assert_eq!(decoder.end().unwrap(), "xy");
}

#[test]
fn utf8_string_two_split() {
    let mut decoder = Utf8StringDecoder::new(2);
    assert_eq!(decoder.bytes_received(b"x").unwrap(), 1);
    assert_eq!(decoder.bytes_received(b"y").unwrap(), 1);
    assert_eq!(decoder.end().unwrap(), "xy");
}

#[test]
fn utf8_string_two_split_extra() {
    let mut decoder = Utf8StringDecoder::new(2);
    assert_eq!(decoder.bytes_received(b"x").unwrap(), 1);
    assert_eq!(decoder.bytes_received(b"yz").unwrap(), 1);
    assert_eq!(decoder.end().unwrap(), "xy");
}

#[test]
fn unicode_split() {
    let mut decoder = Utf8StringDecoder::new(4);
    assert_eq!(decoder.bytes_received(&[0xF0, 0x9F]).unwrap(), 2);
    assert_eq!(decoder.bytes_received(&[0xA6, 0x80]).unwrap(), 2);
    assert_eq!(decoder.end().unwrap(), "\u{1F980}");
}

#[test]
fn broken_utf8() {
    let mut decoder = Utf8StringDecoder::new(3);
    assert_eq!(decoder.bytes_received(&[0xF0, 0x9F]).unwrap(), 2);
    assert_eq!(decoder.bytes_received(&[0xA6]).unwrap(), 1);
    decoder.end().unwrap_err();
}

#[test]
fn utf8_rejects_invalid_byte() {
    let mut decoder = Utf8StringDecoder::new(2);
    let err = decoder.bytes_received(&[0x61, 0xFF]).unwrap_err();
    match err {
        push_decode::decoders::Utf8StringError::InvalidUtf8(e) => {
            assert_eq!(e.valid_up_to, 1);
            assert_eq!(e.error_len, Some(1));
        },
        push_decode::decoders::Utf8StringError::UnexpectedEnd(_) => panic!("wrong error"),
    }
}

#[test]
fn utf8_rejects_surrogate() {
    // 0xED 0xA0 0x80 encodes a surrogate and must be rejected at the second
    // byte already.
    let mut decoder = Utf8StringDecoder::new(3);
    assert_eq!(decoder.bytes_received(&[0xED]).unwrap(), 1);
    let err = decoder.bytes_received(&[0xA0, 0x80]).unwrap_err();
    assert!(matches!(
        err,
        push_decode::decoders::Utf8StringError::InvalidUtf8(_)
    ));
}

#[test]
fn utf8_reports_missing_bytes() {
    let decoder = Utf8StringDecoder::new(5);
    match decoder.end().unwrap_err() {
        push_decode::decoders::Utf8StringError::UnexpectedEnd(e) => assert_eq!(e.missing, 5),
        push_decode::decoders::Utf8StringError::InvalidUtf8(_) => panic!("wrong error"),
    }
}

#[test]
fn byte_vec_reports_missing_bytes() {
    let mut decoder = ByteVecDecoder::new(3);
    assert_eq!(decoder.bytes_received(&[9]).unwrap(), 1);
    let err = decoder.end().unwrap_err();
    assert_eq!(err.missing, 2);
}

#[test]
fn chunk_splitting_matches_single_chunk() {
    let mut whole = ByteArrayDecoder::<4>::new();
    assert_eq!(whole.bytes_received(&[1, 2, 3, 4]).unwrap(), 4);
    let mut split = ByteArrayDecoder::<4>::new();
    assert_eq!(split.bytes_received(&[1]).unwrap(), 1);
    assert_eq!(split.bytes_received(&[]).unwrap(), 0);
    assert_eq!(split.bytes_received(&[2, 3]).unwrap(), 2);
    assert_eq!(split.bytes_received(&[4]).unwrap(), 1);
    assert_eq!(whole.end().unwrap(), split.end().unwrap());
}

#[test]
fn min_required_bytes_counts_down() {
    let mut decoder = ByteVecDecoder::new(3);
    assert_eq!(decoder.min_required_bytes(), 3);
    assert!(!decoder.is_at_end());
    decoder.bytes_received(&[1]).unwrap();
    assert_eq!(decoder.min_required_bytes(), 2);
    decoder.bytes_received(&[2, 3]).unwrap();
    assert_eq!(decoder.min_required_bytes(), 0);
    assert!(decoder.is_at_end());
}

#[test]
fn chain_min_required_bytes_adds_up() {
    let mut decoder = ByteVecDecoder::new(2).chain(ByteVecDecoder::new(3));
    assert_eq!(decoder.min_required_bytes(), 5);
    decoder.bytes_received(&[1, 2, 3]).unwrap();
    assert_eq!(decoder.min_required_bytes(), 2);
}

#[test]
fn take_resets_the_decoder() {
    let mut decoder = U8Decoder::new();
    decoder.bytes_received(&[5]).unwrap();
    assert_eq!(decoder.take().unwrap(), 5);
    decoder.bytes_received(&[6]).unwrap();
    assert_eq!(decoder.end().unwrap(), 6);
}

#[test]
fn sub_decode_hands_out_complete_values() {
    let mut decoder = U8Decoder::new();
    let mut bytes: &[u8] = &[1, 2];
    match decoder.sub_decode(&mut bytes, |e| e) {
        std::ops::ControlFlow::Continue(v) => {
            assert_eq!(v, 1);
            assert_eq!(bytes, [2]);
        },
        std::ops::ControlFlow::Break(_) => panic!("value was complete"),
    }
}

#[test]
fn sub_decode_asks_for_more_bytes() {
    let mut decoder = ByteArrayDecoder::<3>::new();
    let mut bytes: &[u8] = &[1, 2];
    match decoder.sub_decode(&mut bytes, |e| e) {
        std::ops::ControlFlow::Break(Ok(())) => {},
        _ => panic!("the chunk should be exhausted"),
    }
}

#[test]
fn default_decoders_are_fresh() {
    let mut decoder = U8Decoder::default();
    assert_eq!(decoder.bytes_received(&[9]).unwrap(), 1);
    assert_eq!(decoder.end().unwrap(), 9);
    let decoder = ByteArrayDecoder::<2>::default();
    assert_eq!(decoder.min_required_bytes(), 2);
}

#[test]
fn fixed_two_bytes_from_two_chunks() {
    let mut decoder = ByteArrayDecoder::<2>::new();
    assert_eq!(decoder.bytes_received(&[1]).unwrap(), 1);
    assert_eq!(decoder.bytes_received(&[2]).unwrap(), 1);
    assert_eq!(decoder.end().unwrap(), [1, 2]);
}

#[test]
fn fixed_two_bytes_consumes_one_of_two_offered() {
    let mut decoder = ByteArrayDecoder::<2>::new();
    assert_eq!(decoder.bytes_received(&[1]).unwrap(), 1);
    assert_eq!(decoder.bytes_received(&[2, 3]).unwrap(), 1);
    assert_eq!(decoder.end().unwrap(), [1, 2]);
}
