//! Cross-cutting laws relating the encoders and decoders of this crate.
//!
//! The chunk-splitting laws live next to the decoding model in the crate
//! root ([`crate::lemma_feed_concat`], [`crate::lemma_feed_chunks`],
//! [`crate::lemma_feed_min_len`]); this module holds the round-trip laws
//! that connect concrete encoders to their matching decoders, and the
//! boundary-robustness law of the UTF-8 decoder.

use vstd::prelude::*;

use crate::decoders::byte_vec::{ByteVecDecoder, ByteVecState};
use crate::decoders::combinators::{
    lemma_chain_feed_first, lemma_then_feed_first, Chain, ChainSpecState, Then, ThenSpecState,
};
use crate::decoders::u8_decoder::U8Decoder;
use crate::decoders::integer::{lemma_feed_delegates_be, IntDecoder};
use crate::decoders::utf8_string::{
    lemma_utf8_feed_ok, scan_from, utf8_ok, Error, Utf8State, Utf8StringDecoder,
};
use crate::error::{StageError, UnexpectedEnd};
use crate::ints::{be_bytes, lemma_be_bytes_len, lemma_be_bytes_value, BigEndian, Int};
use crate::{concat_chunks, spec_feed, DecoderSpec, Step};

verus! {

/// How the byte-vector accumulator consumes a chunk: it takes exactly as
/// many bytes as it still needs, appends them, and leaves the rest.
pub proof fn lemma_byte_vec_feed(s: ByteVecState, input: Seq<u8>)
    requires
        s.bytes.len() <= s.required,
    ensures
        ({
            let k = if input.len() <= s.required - s.bytes.len() {
                input.len() as int
            } else {
                s.required - s.bytes.len()
            };
            spec_feed::<ByteVecDecoder>(s, input) == Ok::<(ByteVecState, Seq<u8>), UnexpectedEnd>(
                (ByteVecState { bytes: s.bytes + input.take(k), required: s.required }, input.skip(k)),
            )
        }),
    decreases input.len(),
{
    if input.len() == 0 {
        assert(s.bytes + input.take(0) =~= s.bytes);
        assert(input.skip(0) =~= input);
    } else if s.bytes.len() >= s.required {
        assert(s.bytes + input.take(0) =~= s.bytes);
        assert(input.skip(0) =~= input);
    } else {
        let s2 = ByteVecState { bytes: s.bytes.push(input[0]), required: s.required };
        lemma_byte_vec_feed(s2, input.drop_first());
        let k = if input.len() <= s.required - s.bytes.len() {
            input.len() as int
        } else {
            s.required - s.bytes.len()
        };
        assert(s2.bytes + input.drop_first().take(k - 1) =~= s.bytes + input.take(k));
        assert(input.drop_first().skip(k - 1) =~= input.skip(k));
    }
}

/// Chain/Then round trip for byte vectors: the encoder chain of the two
/// byte-slice encoders emits exactly `va + vb`, and the matching chain of
/// byte-vector decoders, fed those bytes, consumes them all and finalizes to
/// exactly the pair `(va, vb)`.
pub proof fn lemma_round_trip_bytes(va: Seq<u8>, vb: Seq<u8>)
    requires
        va.len() <= usize::MAX,
        vb.len() <= usize::MAX,
    ensures
        concat_chunks(
            (if va.len() == 0 {
                Seq::<Seq<u8>>::empty()
            } else {
                seq![va]
            }) + (if vb.len() == 0 {
                Seq::<Seq<u8>>::empty()
            } else {
                seq![vb]
            }),
        ) == va + vb,
        ({
            let s0 = ChainSpecState::<ByteVecState, Seq<u8>, ByteVecState>::First(
                ByteVecState { bytes: Seq::empty(), required: va.len() },
                ByteVecState { bytes: Seq::empty(), required: vb.len() },
            );
            match spec_feed::<Chain<ByteVecDecoder, ByteVecDecoder>>(s0, va + vb) {
                Ok((s1, rest)) => rest.len() == 0
                    && <Chain<ByteVecDecoder, ByteVecDecoder> as DecoderSpec>::spec_finish(s1)
                    == Ok::<(Seq<u8>, Seq<u8>), StageError<UnexpectedEnd, UnexpectedEnd>>((va, vb)),
                Err(_) => false,
            }
        }),
{
    let fc: Seq<Seq<u8>> = if va.len() == 0 {
        Seq::empty()
    } else {
        seq![va]
    };
    let sc: Seq<Seq<u8>> = if vb.len() == 0 {
        Seq::empty()
    } else {
        seq![vb]
    };
    assert(concat_chunks(Seq::<Seq<u8>>::empty()) =~= Seq::<u8>::empty());
    if vb.len() == 0 {
        assert(concat_chunks(sc) =~= vb);
    } else {
        assert(sc.drop_first() =~= Seq::<Seq<u8>>::empty());
        assert(concat_chunks(sc) =~= vb);
    }
    if va.len() == 0 {
        assert(fc + sc =~= sc);
        assert(concat_chunks(fc + sc) =~= va + vb);
    } else {
        assert((fc + sc)[0] == va);
        assert((fc + sc).drop_first() =~= sc);
        assert(concat_chunks(fc + sc) =~= va + vb);
    }
    let sa = ByteVecState { bytes: Seq::<u8>::empty(), required: va.len() as nat };
    let sb = ByteVecState { bytes: Seq::<u8>::empty(), required: vb.len() as nat };
    lemma_chain_feed_first::<ByteVecDecoder, ByteVecDecoder>(sa, sb, va + vb);
    lemma_byte_vec_feed(sa, va + vb);
    let ka = va.len() as int;
    assert(sa.bytes + (va + vb).take(ka) =~= va);
    assert((va + vb).skip(ka) =~= vb);
    let sa2 = ByteVecState { bytes: va, required: va.len() as nat };
    if vb.len() == 0 {
        // the remainder after the first stage is empty, so the chain stays in
        // its first phase and both stages are finalized in order
        assert(spec_feed::<Chain<ByteVecDecoder, ByteVecDecoder>>(
            ChainSpecState::First(sa, sb),
            va + vb,
        ) == Ok::<_, StageError<UnexpectedEnd, UnexpectedEnd>>(
            (ChainSpecState::<ByteVecState, Seq<u8>, ByteVecState>::First(sa2, sb), vb),
        ));
    } else {
        lemma_byte_vec_feed(sb, vb);
        assert(sb.bytes + vb.take(vb.len() as int) =~= vb);
        assert(vb.skip(vb.len() as int) =~= Seq::<u8>::empty());
    }
}

/// Chain round trip for fixed-width integers: the chained big-endian integer
/// encoders emit the two integers' big-endian bytes, and the matching chain
/// of big-endian integer decoders, fed those bytes, consumes them all and
/// finalizes to exactly the pair `(x, y)`.
pub proof fn lemma_round_trip_int<T: Int>(x: T, y: T)
    ensures
        concat_chunks(
            seq![be_bytes(T::spec_unsigned(x), T::spec_width())] + seq![
                be_bytes(T::spec_unsigned(y), T::spec_width()),
            ],
        ) == be_bytes(T::spec_unsigned(x), T::spec_width()) + be_bytes(
            T::spec_unsigned(y),
            T::spec_width(),
        ),
        ({
            let ea = be_bytes(T::spec_unsigned(x), T::spec_width());
            let eb = be_bytes(T::spec_unsigned(y), T::spec_width());
            let s0 = ChainSpecState::<ByteVecState, T, ByteVecState>::First(
                ByteVecState { bytes: Seq::empty(), required: T::spec_width() },
                ByteVecState { bytes: Seq::empty(), required: T::spec_width() },
            );
            match spec_feed::<Chain<IntDecoder<T, BigEndian>, IntDecoder<T, BigEndian>>>(
                s0,
                ea + eb,
            ) {
                Ok((s1, rest)) => rest.len() == 0
                    && <Chain<IntDecoder<T, BigEndian>, IntDecoder<T, BigEndian>> as DecoderSpec>::spec_finish(
                    s1,
                ) == Ok::<(T, T), StageError<UnexpectedEnd, UnexpectedEnd>>((x, y)),
                Err(_) => false,
            }
        }),
{
    let w = T::spec_width();
    let ea = be_bytes(T::spec_unsigned(x), w);
    let eb = be_bytes(T::spec_unsigned(y), w);
    T::lemma_unsigned(x);
    T::lemma_unsigned(y);
    lemma_be_bytes_len(T::spec_unsigned(x), w);
    lemma_be_bytes_len(T::spec_unsigned(y), w);
    lemma_be_bytes_value(T::spec_unsigned(x), w);
    lemma_be_bytes_value(T::spec_unsigned(y), w);
    let cs = seq![ea] + seq![eb];
    assert(cs[0] == ea);
    assert(cs.drop_first() =~= seq![eb]);
    assert(seq![eb].drop_first() =~= Seq::<Seq<u8>>::empty());
    assert(concat_chunks(Seq::<Seq<u8>>::empty()) =~= Seq::<u8>::empty());
    assert(concat_chunks(seq![eb]) =~= eb);
    assert(concat_chunks(cs) =~= ea + eb);
    let sa = ByteVecState { bytes: Seq::<u8>::empty(), required: w };
    let sb = ByteVecState { bytes: Seq::<u8>::empty(), required: w };
    lemma_chain_feed_first::<IntDecoder<T, BigEndian>, IntDecoder<T, BigEndian>>(sa, sb, ea + eb);
    lemma_feed_delegates_be::<T>(sa, ea + eb);
    lemma_byte_vec_feed(sa, ea + eb);
    assert(sa.bytes + (ea + eb).take(w as int) =~= ea);
    assert((ea + eb).skip(w as int) =~= eb);
    lemma_feed_delegates_be::<T>(sb, eb);
    lemma_byte_vec_feed(sb, eb);
    assert(sb.bytes + eb.take(eb.len() as int) =~= eb);
    assert(eb.skip(eb.len() as int) =~= Seq::<u8>::empty());
}

/// Dependent round trip: a single length byte followed by that many payload
/// bytes, decoded by a byte decoder whose value chooses the size of the
/// following byte-vector decoder, reproduces exactly the payload.
///
/// The statement quantifies over every constructor type `Fun`, since the
/// spec-level behaviour of [`Then`](crate::decoders::combinators::Then) is
/// fixed by the spec-level continuation alone.
pub proof fn lemma_length_prefixed_round_trip<Fun: FnOnce(u8) -> ByteVecDecoder>(payload: Seq<u8>)
    requires
        payload.len() <= 255,
    ensures
        forall|cont: spec_fn(u8) -> ByteVecState|
            (forall|v: u8| #[trigger] cont(v) == (ByteVecState {
                bytes: Seq::<u8>::empty(),
                required: v as nat,
            })) ==> {
                match #[trigger] spec_feed::<Then<U8Decoder, ByteVecDecoder, Fun>>(
                    ThenSpecState::<Option<u8>, u8, ByteVecState>::First(None, cont),
                    seq![payload.len() as u8] + payload,
                ) {
                    Ok((s1, rest)) => rest.len() == 0
                        && <Then<U8Decoder, ByteVecDecoder, Fun> as DecoderSpec>::spec_finish(s1)
                        == Ok::<Seq<u8>, StageError<UnexpectedEnd, UnexpectedEnd>>(payload),
                    Err(_) => false,
                }
            },
{
    let len_byte = payload.len() as u8;
    let wire = seq![len_byte] + payload;
    assert(wire[0] == len_byte);
    assert(wire.drop_first() =~= payload);
    assert forall|cont: spec_fn(u8) -> ByteVecState|
        (forall|v: u8| #[trigger] cont(v) == (ByteVecState {
            bytes: Seq::<u8>::empty(),
            required: v as nat,
        })) implies {
        match #[trigger] spec_feed::<Then<U8Decoder, ByteVecDecoder, Fun>>(
            ThenSpecState::<Option<u8>, u8, ByteVecState>::First(None, cont),
            seq![payload.len() as u8] + payload,
        ) {
            Ok((s1, rest)) => rest.len() == 0
                && <Then<U8Decoder, ByteVecDecoder, Fun> as DecoderSpec>::spec_finish(s1)
                == Ok::<Seq<u8>, StageError<UnexpectedEnd, UnexpectedEnd>>(payload),
            Err(_) => false,
        }
    } by {
        lemma_then_feed_first::<U8Decoder, ByteVecDecoder, Fun>(None, cont, wire);
        // the single length byte is consumed and every later byte is refused
        assert(<U8Decoder as DecoderSpec>::spec_step(None, len_byte) == Step::<
            Option<u8>,
            UnexpectedEnd,
        >::More(Some(len_byte)));
        if payload.len() == 0 {
            assert(payload =~= Seq::<u8>::empty());
            assert(spec_feed::<U8Decoder>(None, wire) == Ok::<
                (Option<u8>, Seq<u8>),
                UnexpectedEnd,
            >((Some(len_byte), wire.drop_first())));
            assert(cont(len_byte) == (ByteVecState { bytes: Seq::<u8>::empty(), required: 0 }));
        } else {
            assert(<U8Decoder as DecoderSpec>::spec_step(Some(len_byte), payload[0]) == Step::<
                Option<u8>,
                UnexpectedEnd,
            >::Stop(Some(len_byte)));
            assert(spec_feed::<U8Decoder>(Some(len_byte), wire.drop_first()) == Ok::<
                (Option<u8>, Seq<u8>),
                UnexpectedEnd,
            >((Some(len_byte), payload)));
            let sb = cont(len_byte);
            lemma_byte_vec_feed(sb, payload);
            assert(sb.bytes + payload.take(payload.len() as int) =~= payload);
            assert(payload.skip(payload.len() as int) =~= Seq::<u8>::empty());
        }
    }
}

/// UTF-8 boundary robustness, first half: the four bytes of a 4-byte scalar
/// encoding, split at any internal boundary `k` and fed as two chunks, are
/// all consumed and finalize to exactly the one-character string.
///
/// Second half: a decoder whose required length cuts that encoding off at
/// `k` reports invalid content at finalization, never a silent partial
/// string.
pub proof fn lemma_utf8_boundary(c: char, k: int)
    requires
        vstd::utf8::has_width_4_encoding(c as u32),
        1 <= k <= 3,
    ensures
        ({
            let bytes = vstd::utf8::encode_scalar(c as u32);
            let s0 = Utf8State { bytes: Seq::empty(), required: 4 };
            match spec_feed::<Utf8StringDecoder>(s0, bytes.take(k)) {
                Ok((s1, rest1)) => rest1.len() == 0 && match spec_feed::<Utf8StringDecoder>(
                    s1,
                    bytes.skip(k),
                ) {
                    Ok((s2, rest2)) => rest2.len() == 0
                        && <Utf8StringDecoder as DecoderSpec>::spec_finish(s2) == Ok::<
                        Seq<char>,
                        Error,
                    >(seq![c]),
                    Err(_) => false,
                },
                Err(_) => false,
            }
        }),
        ({
            let bytes = vstd::utf8::encode_scalar(c as u32);
            let s0 = Utf8State { bytes: Seq::empty(), required: k as nat };
            match spec_feed::<Utf8StringDecoder>(s0, bytes.take(k)) {
                Ok((s1, rest1)) => rest1.len() == 0
                    && (<Utf8StringDecoder as DecoderSpec>::spec_finish(s1) matches Err(
                    Error::InvalidUtf8(_),
                )),
                Err(_) => false,
            }
        }),
{
    let cv = c as u32;
    lemma_encode_scalar_4(cv);
    let bytes = vstd::utf8::encode_scalar(cv);
    assert(bytes.len() == 4);
    lemma_utf8_scalar_prefixes(c);
    // feeding the first k bytes keeps every prefix acceptable
    let s0 = Utf8State { bytes: Seq::<u8>::empty(), required: 4 };
    assert forall|j: int| 0 <= j <= bytes.take(k).len() implies utf8_ok(
        #[trigger] (s0.bytes + bytes.take(k).take(j)),
    ) by {
        assert(s0.bytes + bytes.take(k).take(j) =~= bytes.take(j));
    }
    lemma_utf8_feed_ok(s0, bytes.take(k));
    let s1 = Utf8State { bytes: s0.bytes + bytes.take(k), required: 4 };
    assert(s1.bytes =~= bytes.take(k));
    // feeding the rest completes the scalar
    assert forall|j: int| 0 <= j <= bytes.skip(k).len() implies utf8_ok(
        #[trigger] (s1.bytes + bytes.skip(k).take(j)),
    ) by {
        assert(s1.bytes + bytes.skip(k).take(j) =~= bytes.take(k + j));
    }
    lemma_utf8_feed_ok(s1, bytes.skip(k));
    let s2 = Utf8State { bytes: s1.bytes + bytes.skip(k), required: 4 };
    assert(s2.bytes =~= bytes);
    assert(scan_from(bytes, 0) == 4);
    // the completed buffer decodes to exactly the one-character string
    assert(vstd::utf8::encode_utf8(seq![c]) =~= bytes) by {
        assert(seq![c][0] == c);
        assert(seq![c].drop_first() =~= Seq::<char>::empty());
        assert(vstd::utf8::encode_utf8(Seq::<char>::empty()) =~= Seq::<u8>::empty());
        assert(vstd::utf8::encode_utf8(seq![c]) == vstd::utf8::encode_scalar(cv)
            + vstd::utf8::encode_utf8(seq![c].drop_first()));
        assert(bytes + Seq::<u8>::empty() =~= bytes);
    }
    vstd::utf8::encode_utf8_decode_utf8(seq![c]);
    // the truncated decoder accepts the same bytes but fails at the end
    let t0 = Utf8State { bytes: Seq::<u8>::empty(), required: k as nat };
    assert forall|j: int| 0 <= j <= bytes.take(k).len() implies utf8_ok(
        #[trigger] (t0.bytes + bytes.take(k).take(j)),
    ) by {
        assert(t0.bytes + bytes.take(k).take(j) =~= bytes.take(j));
    }
    lemma_utf8_feed_ok(t0, bytes.take(k));
    let t1 = Utf8State { bytes: t0.bytes + bytes.take(k), required: k as nat };
    assert(t1.bytes =~= bytes.take(k));
    assert(scan_from(bytes.take(k), 0) == 0);
}

/// The byte shapes of a 4-byte scalar encoding, spelled out at the bit
/// level: a leading byte between 0xf0 and 0xf4, a second byte within its
/// floors and ceilings, and two plain continuation bytes.
proof fn lemma_encode_scalar_4(cv: u32)
    by (bit_vector)
    requires
        0x10000 <= cv <= 0x10ffff,
    ensures
        0xf0 <= (0xf0u8 | (((cv >> 18) & 0x7) as u8)) <= 0xf4,
        (if (0xf0u8 | (((cv >> 18) & 0x7) as u8)) == 0xf0 {
            0x90u8
        } else {
            0x80u8
        }) <= (0x80u8 | (((cv >> 12) & 0x3f) as u8)),
        (0x80u8 | (((cv >> 12) & 0x3f) as u8)) <= (if (0xf0u8 | (((cv >> 18) & 0x7) as u8)) == 0xf4 {
            0x8fu8
        } else {
            0xbfu8
        }),
        0x80 <= (0x80u8 | (((cv >> 6) & 0x3f) as u8)) <= 0xbf,
        0x80 <= (0x80u8 | ((cv & 0x3f) as u8)) <= 0xbf,
{
}

/// Every proper prefix of a 4-byte scalar encoding is an acceptable
/// incomplete buffer; the whole encoding scans as one complete scalar.
proof fn lemma_utf8_scalar_prefixes(c: char)
    requires
        vstd::utf8::has_width_4_encoding(c as u32),
    ensures
        ({
            let bytes = vstd::utf8::encode_scalar(c as u32);
            &&& bytes.len() == 4
            &&& forall|j: int| 0 <= j <= 4 ==> utf8_ok(#[trigger] bytes.take(j))
            &&& forall|j: int| 0 <= j < 4 ==> scan_from(#[trigger] bytes.take(j), 0) == 0
            &&& scan_from(bytes, 0) == 4
            &&& scan_from(bytes.take(4), 0) == 4
        }),
{
    let cv = c as u32;
    lemma_encode_scalar_4(cv);
    let bytes = vstd::utf8::encode_scalar(cv);
    let b0 = bytes[0];
    assert(crate::decoders::utf8_string::lead_width(b0) == 4);
    assert(utf8_ok(bytes.take(0)));
    assert(bytes.take(1)[0] == b0);
    assert(scan_from(bytes.take(1), 0) == 0);
    assert(utf8_ok(bytes.take(1)));
    assert(bytes.take(2)[0] == b0 && bytes.take(2)[1] == bytes[1]);
    assert(scan_from(bytes.take(2), 0) == 0);
    assert(utf8_ok(bytes.take(2)));
    assert(bytes.take(3)[0] == b0 && bytes.take(3)[1] == bytes[1] && bytes.take(3)[2] == bytes[2]);
    assert(scan_from(bytes.take(3), 0) == 0);
    assert(utf8_ok(bytes.take(3)));
    assert(bytes.take(4) =~= bytes);
    assert(scan_from(bytes, 4) == 4);
    assert(scan_from(bytes, 0) == 4);
    assert(utf8_ok(bytes.take(4)));
}

} // verus!
