use vstd::prelude::*;
use vstd::slice::slice_subrange;

use crate::error::UnexpectedEnd;
use crate::{spec_feed, Decoder, DecoderSpec, KnownMinLenDecoder, Step};

verus! {

/// The width of the UTF-8 scalar encoding a leading byte announces, or 0 if
/// the byte cannot lead a scalar encoding.
///
/// Bytes 0xc0 and 0xc1 (overlong two-byte forms) and bytes above 0xf4
/// (values beyond the last Unicode scalar) are rejected outright.
pub open spec fn lead_width(b: u8) -> int {
    if b < 0x80 {
        1
    } else if 0xc2 <= b && b <= 0xdf {
        2
    } else if 0xe0 <= b && b <= 0xef {
        3
    } else if 0xf0 <= b && b <= 0xf4 {
        4
    } else {
        0
    }
}

/// The lowest second byte allowed after the given leading byte.  The special
/// floors rule out overlong three-byte forms (0xe0) and scalars below the
/// four-byte range (0xf0).
pub open spec fn second_min(b: u8) -> u8 {
    if b == 0xe0 {
        0xa0
    } else if b == 0xf0 {
        0x90
    } else {
        0x80
    }
}

/// The highest second byte allowed after the given leading byte.  The
/// special ceilings rule out surrogates (0xed) and scalars above the Unicode
/// range (0xf4).
pub open spec fn second_max(b: u8) -> u8 {
    if b == 0xed {
        0x9f
    } else if b == 0xf4 {
        0x8f
    } else {
        0xbf
    }
}

/// Whether a byte has the continuation form 10xxxxxx.
pub open spec fn is_cont(b: u8) -> bool {
    0x80 <= b && b <= 0xbf
}

/// How the bytes of `s` from position `i` on relate to a single UTF-8 scalar
/// encoding.
pub enum ScalarStatus {
    /// A complete, valid scalar encoding of the given width starts at `i`.
    Complete(int),
    /// The bytes so far are a proper prefix of some valid scalar encoding;
    /// more bytes are needed to decide.
    Incomplete,
    /// The bytes can never extend to a valid scalar encoding; the payload is
    /// the length of the malformed prefix.
    Bad(int),
}

/// Classifies the bytes of `s` starting at position `i` against the UTF-8
/// scalar grammar, exactly as the standard library's validator does.
pub open spec fn scalar_status(s: Seq<u8>, i: int) -> ScalarStatus
    recommends
        0 <= i < s.len(),
{
    let w = lead_width(s[i]);
    if w == 0 {
        ScalarStatus::Bad(1)
    } else if w == 1 {
        ScalarStatus::Complete(1)
    } else if i + 1 >= s.len() {
        ScalarStatus::Incomplete
    } else if !(second_min(s[i]) <= s[i + 1] && s[i + 1] <= second_max(s[i])) {
        ScalarStatus::Bad(1)
    } else if w == 2 {
        ScalarStatus::Complete(2)
    } else if i + 2 >= s.len() {
        ScalarStatus::Incomplete
    } else if !is_cont(s[i + 2]) {
        ScalarStatus::Bad(2)
    } else if w == 3 {
        ScalarStatus::Complete(3)
    } else if i + 3 >= s.len() {
        ScalarStatus::Incomplete
    } else if !is_cont(s[i + 3]) {
        ScalarStatus::Bad(3)
    } else {
        ScalarStatus::Complete(4)
    }
}

/// The position where the run of complete valid scalar encodings that starts
/// at `i` ends.
pub open spec fn scan_from(s: Seq<u8>, i: int) -> int
    recommends
        0 <= i <= s.len(),
    decreases s.len() - i,
    when 0 <= i <= s.len()
{
    if i >= s.len() {
        i
    } else {
        match scalar_status(s, i) {
            ScalarStatus::Complete(w) => scan_from(s, i + w),
            ScalarStatus::Incomplete => i,
            ScalarStatus::Bad(_) => i,
        }
    }
}

/// Whether the bytes are a valid string prefix: complete valid scalars
/// followed by at most an incomplete scalar prefix still waiting for bytes.
pub open spec fn utf8_ok(s: Seq<u8>) -> bool {
    scan_from(s, 0) == s.len() || scalar_status(s, scan_from(s, 0)) is Incomplete
}

/// The scan boundary lies within the sequence.
pub proof fn lemma_scan_bounds(s: Seq<u8>, i: int)
    requires
        0 <= i <= s.len(),
    ensures
        i <= scan_from(s, i) <= s.len(),
    decreases s.len() - i,
{
    if i >= s.len() {
    } else {
        match scalar_status(s, i) {
            ScalarStatus::Complete(w) => {
                lemma_scan_bounds(s, i + w);
            },
            _ => {},
        }
    }
}

/// A complete scalar status only depends on the bytes it covers, so
/// appending a byte at the end does not change it.
proof fn lemma_status_push(s: Seq<u8>, b: u8, i: int)
    requires
        0 <= i < s.len(),
    ensures
        scalar_status(s, i) matches ScalarStatus::Complete(w) ==> scalar_status(s.push(b), i)
            == scalar_status(s, i),
{
}

/// Appending a byte never moves the scan boundary backwards: the scan of the
/// longer sequence passes through the old boundary.
pub proof fn lemma_scan_push(s: Seq<u8>, b: u8, i: int)
    requires
        0 <= i <= s.len(),
    ensures
        scan_from(s.push(b), i) == scan_from(s.push(b), scan_from(s, i)),
    decreases s.len() - i,
{
    if i >= s.len() {
    } else {
        match scalar_status(s, i) {
            ScalarStatus::Complete(w) => {
                lemma_status_push(s, b, i);
                lemma_scan_push(s, b, i + w);
            },
            _ => {},
        }
    }
}

/// Once the scan has reached the end of the sequence, the bytes from the
/// start of the run are valid UTF-8 in the sense of [`vstd::utf8`].
pub proof fn lemma_scan_valid_utf8(s: Seq<u8>, i: int)
    requires
        0 <= i <= s.len(),
        scan_from(s, i) == s.len(),
    ensures
        vstd::utf8::valid_utf8(s.skip(i)),
    decreases s.len() - i,
{
    if i >= s.len() {
        assert(s.skip(i) =~= Seq::<u8>::empty());
    } else {
        match scalar_status(s, i) {
            ScalarStatus::Complete(w) => {
                lemma_status_first_scalar(s, i);
                lemma_scan_valid_utf8(s, i + w);
                assert(vstd::utf8::pop_first_scalar(s.skip(i)) =~= s.skip(i + w));
            },
            _ => {},
        }
    }
}

/// Two-byte encodings with a leading byte of 0xc2 or above encode exactly
/// the codepoints from 0x80 to 0x7ff.
proof fn lemma_bits_width_2(b0: u8, b1: u8)
    by (bit_vector)
    requires
        0xc2 <= b0 <= 0xdf,
        0x80 <= b1 <= 0xbf,
    ensures
        0x80 <= ((((b0 & 0x1f) as u32) << 6) | ((b1 & 0x3f) as u32)) <= 0x7ff,
{
}

/// Three-byte encodings whose second byte respects the floors and ceilings
/// encode exactly the codepoints from 0x800 to 0xffff outside the surrogate
/// range.
proof fn lemma_bits_width_3(b0: u8, b1: u8, b2: u8)
    by (bit_vector)
    requires
        0xe0 <= b0 <= 0xef,
        (if b0 == 0xe0 {
            0xa0u8
        } else {
            0x80u8
        }) <= b1 <= (if b0 == 0xed {
            0x9fu8
        } else {
            0xbfu8
        }),
        0x80 <= b2 <= 0xbf,
    ensures
        0x800 <= ((((b0 & 0x0f) as u32) << 12) | (((b1 & 0x3f) as u32) << 6) | ((b2
            & 0x3f) as u32)) <= 0xffff,
        !(0xd800 <= ((((b0 & 0x0f) as u32) << 12) | (((b1 & 0x3f) as u32) << 6) | ((b2
            & 0x3f) as u32)) <= 0xdfff),
{
}

/// Four-byte encodings whose second byte respects the floors and ceilings
/// encode exactly the codepoints from 0x10000 to 0x10ffff.
proof fn lemma_bits_width_4(b0: u8, b1: u8, b2: u8, b3: u8)
    by (bit_vector)
    requires
        0xf0 <= b0 <= 0xf4,
        (if b0 == 0xf0 {
            0x90u8
        } else {
            0x80u8
        }) <= b1 <= (if b0 == 0xf4 {
            0x8fu8
        } else {
            0xbfu8
        }),
        0x80 <= b2 <= 0xbf,
        0x80 <= b3 <= 0xbf,
    ensures
        0x10000 <= ((((b0 & 0x07) as u32) << 18) | (((b1 & 0x3f) as u32) << 12) | (((b2
            & 0x3f) as u32) << 6) | ((b3 & 0x3f) as u32)) <= 0x10ffff,
{
}

/// A complete scalar status at `i` means the suffix starting at `i` begins
/// with a well-formed scalar of that width in the sense of [`vstd::utf8`].
pub proof fn lemma_status_first_scalar(s: Seq<u8>, i: int)
    requires
        0 <= i < s.len(),
        scalar_status(s, i) is Complete,
    ensures
        vstd::utf8::valid_first_scalar(s.skip(i)),
        vstd::utf8::length_of_first_scalar(s.skip(i)) == scalar_status(s, i)->Complete_0,
{
    let t = s.skip(i);
    let b0 = s[i];
    let w = lead_width(b0);
    assert(t[0] == b0);
    if w == 1 {
        assert(vstd::utf8::valid_leading_and_continuation_bytes_first_codepoint(t));
    } else if w == 2 {
        let b1 = s[i + 1];
        assert(t[1] == b1);
        lemma_bits_width_2(b0, b1);
        assert(vstd::utf8::codepoint_width_2(b0, b1) == ((((b0 & 0x1f) as u32) << 6) | ((b1
            & 0x3f) as u32)));
    } else if w == 3 {
        let b1 = s[i + 1];
        let b2 = s[i + 2];
        assert(t[1] == b1 && t[2] == b2);
        lemma_bits_width_3(b0, b1, b2);
        assert(vstd::utf8::codepoint_width_3(b0, b1, b2) == ((((b0 & 0x0f) as u32) << 12) | (((b1
            & 0x3f) as u32) << 6) | ((b2 & 0x3f) as u32)));
        assert(!vstd::utf8::is_leading_byte_width_1(b0) && !vstd::utf8::is_leading_byte_width_2(b0));
    } else {
        let b1 = s[i + 1];
        let b2 = s[i + 2];
        let b3 = s[i + 3];
        assert(t[1] == b1 && t[2] == b2 && t[3] == b3);
        lemma_bits_width_4(b0, b1, b2, b3);
        assert(vstd::utf8::codepoint_width_4(b0, b1, b2, b3) == ((((b0 & 0x07) as u32) << 18) | (((
        b1 & 0x3f) as u32) << 12) | (((b2 & 0x3f) as u32) << 6) | ((b3 & 0x3f) as u32)));
        assert(!vstd::utf8::is_leading_byte_width_1(b0) && !vstd::utf8::is_leading_byte_width_2(b0)
            && !vstd::utf8::is_leading_byte_width_3(b0));
    }
}

/// The position information of a UTF-8 validation failure.
///
/// `valid_up_to` is the length of the longest valid prefix of the
/// accumulated bytes.  `error_len` is the length of the malformed byte
/// sequence found after it, or `None` if the bytes merely ended in the middle
/// of a scalar encoding that was never finished.
#[derive(Debug, Clone, PartialEq, Eq)]
pub struct Utf8Error {
    /// Length of the longest valid prefix.
    pub valid_up_to: usize,
    /// Length of the malformed sequence, or `None` for a dangling incomplete
    /// one.
    pub error_len: Option<u8>,
}

/// The errors the UTF-8 string decoder can report.
#[derive(Debug, Clone, PartialEq, Eq)]
pub enum Error {
    /// The supplied bytes are not valid UTF-8.
    InvalidUtf8(Utf8Error),
    /// The stream ended before the required length was reached.
    UnexpectedEnd(UnexpectedEnd),
}

/// The spec-level state of [`Utf8StringDecoder`].
pub struct Utf8State {
    /// Bytes accumulated so far.
    pub bytes: Seq<u8>,
    /// Total number of bytes to collect.
    pub required: nat,
}

/// Decodes a UTF-8 string of an encoded byte length known at construction.
///
/// The bytes in `buf[..valid_up_to]` are already proven to be a valid string
/// prefix; the bytes after that are provisionally buffered, being the start
/// of a multi-byte scalar encoding still mid-flight.  Multi-byte encodings
/// may thus be split arbitrarily across chunk boundaries.  A byte that can
/// never extend the buffer to valid UTF-8 is rejected on the spot.
#[derive(Debug)]
pub struct Utf8StringDecoder {
    /// Bytes accumulated so far.
    pub buf: Vec<u8>,
    /// The length of the proven-valid prefix of `buf`.
    pub valid_up_to: usize,
    /// Total number of bytes to collect.
    pub required: usize,
}

impl Utf8StringDecoder {
    /// Creates a decoder that collects a string of `len_bytes` encoded
    /// bytes.
    pub fn new(len_bytes: usize) -> (r: Self)
        ensures
            r.wf(),
            r.model() == (Utf8State { bytes: Seq::<u8>::empty(), required: len_bytes as nat }),
    {
        Utf8StringDecoder { buf: Vec::new(), valid_up_to: 0, required: len_bytes }
    }
}

/// Relies on String::from_utf8: a vector of valid UTF-8 bytes becomes the
/// string whose characters those bytes encode.
#[verifier::external_body]
fn string_from_utf8(bytes: Vec<u8>) -> (r: String)
    requires
        vstd::utf8::valid_utf8(bytes@),
    ensures
        r@ == vstd::utf8::decode_utf8(bytes@),
{
    match String::from_utf8(bytes) {
        Ok(s) => s,
        Err(_) => String::new(),
    }
}

impl DecoderSpec for Utf8StringDecoder {
    type Value = String;

    type Error = Error;

    type SpecState = Utf8State;

    type SpecValue = Seq<char>;

    open spec fn model(&self) -> Utf8State {
        Utf8State { bytes: self.buf@, required: self.required as nat }
    }

    open spec fn wf(&self) -> bool {
        &&& self.buf@.len() <= self.required
        &&& self.valid_up_to == scan_from(self.buf@, 0)
        &&& utf8_ok(self.buf@)
    }

    open spec fn spec_inv(s: Utf8State) -> bool {
        &&& s.bytes.len() <= s.required
        &&& s.required <= usize::MAX
        &&& utf8_ok(s.bytes)
    }

    open spec fn spec_value(v: String) -> Seq<char> {
        v@
    }

    open spec fn spec_step(s: Utf8State, b: u8) -> Step<Utf8State, Error> {
        if s.bytes.len() >= s.required {
            Step::Stop(s)
        } else {
            let s2 = s.bytes.push(b);
            if utf8_ok(s2) {
                Step::More(Utf8State { bytes: s2, required: s.required })
            } else {
                let v2 = scan_from(s2, 0);
                let k = scalar_status(s2, v2)->Bad_0;
                Step::Fail(
                    Error::InvalidUtf8(
                        Utf8Error { valid_up_to: v2 as usize, error_len: Some(k as u8) },
                    ),
                )
            }
        }
    }

    open spec fn spec_finish(s: Utf8State) -> Result<Seq<char>, Error> {
        if s.bytes.len() < s.required {
            Err(Error::UnexpectedEnd(UnexpectedEnd { missing: (s.required - s.bytes.len()) as usize }))
        } else if scan_from(s.bytes, 0) == s.bytes.len() {
            Ok(vstd::utf8::decode_utf8(s.bytes))
        } else {
            Err(
                Error::InvalidUtf8(
                    Utf8Error { valid_up_to: scan_from(s.bytes, 0) as usize, error_len: None },
                ),
            )
        }
    }

    proof fn lemma_wf_inv(&self) {
    }

    proof fn lemma_step_inv(s: Utf8State, b: u8) {
    }

    proof fn lemma_stop_stable(s: Utf8State, b: u8, c: u8) {
    }
}

/// The exec mirror of [`lead_width`].
fn lead_width_of(b: u8) -> (r: usize)
    ensures
        r as int == lead_width(b),
{
    if b < 0x80 {
        1
    } else if 0xc2 <= b && b <= 0xdf {
        2
    } else if 0xe0 <= b && b <= 0xef {
        3
    } else if 0xf0 <= b && b <= 0xf4 {
        4
    } else {
        0
    }
}

/// The exec mirror of [`second_min`].
fn second_min_of(b: u8) -> (r: u8)
    ensures
        r == second_min(b),
{
    if b == 0xe0 {
        0xa0
    } else if b == 0xf0 {
        0x90
    } else {
        0x80
    }
}

/// The exec mirror of [`second_max`].
fn second_max_of(b: u8) -> (r: u8)
    ensures
        r == second_max(b),
{
    if b == 0xed {
        0x9f
    } else if b == 0xf4 {
        0x8f
    } else {
        0xbf
    }
}

impl Decoder for Utf8StringDecoder {
    fn decode_chunk(&mut self, bytes: &mut &[u8]) -> (r: Result<(), Error>) {
        let n = (*bytes).len();
        let mut i: usize = 0;
        proof {
            assert(old(bytes)@.skip(0) =~= old(bytes)@);
        }
        while i < n && self.buf.len() < self.required
            invariant
                old(self).wf(),
                n == old(bytes)@.len(),
                *bytes == *old(bytes),
                i <= n,
                self.required == old(self).required,
                self.buf@.len() <= self.required,
                self.valid_up_to == scan_from(self.buf@, 0),
                utf8_ok(self.buf@),
                spec_feed::<Self>(old(self).model(), old(bytes)@) == spec_feed::<Self>(
                    self.model(),
                    old(bytes)@.skip(i as int),
                ),
            decreases n - i,
        {
            let ghost s = self.buf@;
            let ghost cur = self.model();
            let ghost rest = old(bytes)@.skip(i as int);
            let b: u8 = (*bytes)[i];
            let ghost s2 = s.push(b);
            proof {
                assert(rest[0] == b);
                lemma_scan_bounds(s, 0);
                lemma_scan_push(s, b, 0);
            }
            let tail_len = self.buf.len() - self.valid_up_to;
            if tail_len == 0 {
                let w = lead_width_of(b);
                if w == 0 {
                    let e = Error::InvalidUtf8(
                        Utf8Error { valid_up_to: self.valid_up_to, error_len: Some(1) },
                    );
                    proof {
                        assert(s2[self.valid_up_to as int] == b);
                        assert(scalar_status(s2, self.valid_up_to as int) == ScalarStatus::Bad(1));
                        assert(scan_from(s2, self.valid_up_to as int) == self.valid_up_to as int);
                        assert(!utf8_ok(s2));
                        assert(Self::spec_step(cur, b) == Step::<Utf8State, Error>::Fail(e));
                        assert(spec_feed::<Self>(cur, rest) == Err::<(Utf8State, Seq<u8>), Error>(e));
                    }
                    return Err(e);
                }
                self.buf.push(b);
                if w == 1 {
                    self.valid_up_to = self.buf.len();
                    proof {
                        assert(s2[(self.buf@.len() - 1) as int] == b);
                        assert(scalar_status(s2, (self.buf@.len() - 1) as int)
                            == ScalarStatus::Complete(1));
                        assert(scan_from(s2, self.buf@.len() as int) == self.buf@.len() as int);
                    }
                } else {
                    proof {
                        assert(s2[self.valid_up_to as int] == b);
                        assert(scalar_status(s2, self.valid_up_to as int)
                            == ScalarStatus::Incomplete);
                        assert(scan_from(s2, self.valid_up_to as int) == self.valid_up_to as int);
                    }
                }
            } else {
                let b0: u8 = self.buf[self.valid_up_to];
                let w0 = lead_width_of(b0);
                let ghost v = self.valid_up_to as int;
                proof {
                    assert(scalar_status(s, v) is Incomplete);
                    assert(s2[v] == b0);
                    if 1 < s.len() - v {
                        assert(s2[v + 1] == s[v + 1]);
                    }
                    if 2 < s.len() - v {
                        assert(s2[v + 2] == s[v + 2]);
                    }
                }
                let ok = if tail_len == 1 {
                    proof {
                        assert(s2[v + 1] == b);
                    }
                    second_min_of(b0) <= b && b <= second_max_of(b0)
                } else if tail_len == 2 {
                    proof {
                        assert(s2[v + 2] == b);
                    }
                    0x80 <= b && b <= 0xbf
                } else {
                    proof {
                        assert(s.len() - v == 3);
                        assert(s2[v + 3] == b);
                    }
                    0x80 <= b && b <= 0xbf
                };
                if !ok {
                    let el: u8 = if tail_len == 1 {
                        1
                    } else if tail_len == 2 {
                        2
                    } else {
                        3
                    };
                    let e = Error::InvalidUtf8(
                        Utf8Error { valid_up_to: self.valid_up_to, error_len: Some(el) },
                    );
                    proof {
                        assert(scalar_status(s2, v) == ScalarStatus::Bad(el as int));
                        assert(scan_from(s2, v) == v);
                        assert(!utf8_ok(s2));
                        assert(Self::spec_step(cur, b) == Step::<Utf8State, Error>::Fail(e));
                        assert(spec_feed::<Self>(cur, rest) == Err::<(Utf8State, Seq<u8>), Error>(e));
                    }
                    return Err(e);
                }
                self.buf.push(b);
                if tail_len + 1 == w0 {
                    self.valid_up_to = self.buf.len();
                    proof {
                        assert(scalar_status(s2, v) == ScalarStatus::Complete(w0 as int));
                        assert(scan_from(s2, v + w0) == self.buf@.len() as int);
                    }
                } else {
                    proof {
                        assert(scalar_status(s2, v) == ScalarStatus::Incomplete);
                        assert(scan_from(s2, v) == v);
                    }
                }
            }
            i = i + 1;
            proof {
                assert(utf8_ok(self.buf@));
                assert(Self::spec_step(cur, b) == Step::<Utf8State, Error>::More(self.model()));
                assert(rest.drop_first() =~= old(bytes)@.skip(i as int));
            }
        }
        *bytes = slice_subrange(*bytes, i, n);
        proof {
            let ghost rest = old(bytes)@.skip(i as int);
            assert(final(bytes)@ =~= rest);
            if rest.len() > 0 {
                assert(Self::spec_step(self.model(), rest[0]) == Step::<Utf8State, Error>::Stop(
                    self.model(),
                ));
            }
            assert(spec_feed::<Self>(self.model(), rest) == Ok::<(Utf8State, Seq<u8>), Error>(
                (self.model(), rest),
            ));
        }
        Ok(())
    }

    fn end(self) -> (r: Result<String, Error>) {
        if self.buf.len() < self.required {
            Err(Error::UnexpectedEnd(UnexpectedEnd { missing: self.required - self.buf.len() }))
        } else if self.valid_up_to == self.buf.len() {
            proof {
                lemma_scan_valid_utf8(self.buf@, 0);
                assert(self.buf@.skip(0) =~= self.buf@);
            }
            Ok(string_from_utf8(self.buf))
        } else {
            Err(
                Error::InvalidUtf8(
                    Utf8Error { valid_up_to: self.valid_up_to, error_len: None },
                ),
            )
        }
    }
}

/// Feeding bytes that keep the buffer a valid string prefix at every step
/// consumes all of them.
pub proof fn lemma_utf8_feed_ok(st: Utf8State, input: Seq<u8>)
    requires
        st.bytes.len() + input.len() <= st.required,
        forall|j: int| 0 <= j <= input.len() ==> utf8_ok(#[trigger] (st.bytes + input.take(j))),
    ensures
        spec_feed::<Utf8StringDecoder>(st, input) == Ok::<(Utf8State, Seq<u8>), Error>(
            (Utf8State { bytes: st.bytes + input, required: st.required }, Seq::<u8>::empty()),
        ),
    decreases input.len(),
{
    if input.len() == 0 {
        assert(st.bytes + input =~= st.bytes);
        assert(input =~= Seq::<u8>::empty());
    } else {
        let b = input[0];
        let s2 = st.bytes.push(b);
        assert(st.bytes + input.take(1) =~= s2);
        assert(utf8_ok(s2));
        let st2 = Utf8State { bytes: s2, required: st.required };
        assert(<Utf8StringDecoder as DecoderSpec>::spec_step(st, b) == Step::<Utf8State, Error>::More(
            st2,
        ));
        assert forall|j: int| 0 <= j <= input.drop_first().len() implies utf8_ok(
            #[trigger] (st2.bytes + input.drop_first().take(j)),
        ) by {
            assert(st2.bytes + input.drop_first().take(j) =~= st.bytes + input.take(j + 1));
        }
        lemma_utf8_feed_ok(st2, input.drop_first());
        assert(st2.bytes + input.drop_first() =~= st.bytes + input);
    }
}

impl KnownMinLenDecoder for Utf8StringDecoder {
    open spec fn spec_min_len(s: Utf8State) -> nat {
        (s.required - s.bytes.len()) as nat
    }

    proof fn lemma_min_len(s: Utf8State, b: u8) {
    }

    fn min_required_bytes(&self) -> (r: usize) {
        self.required - self.buf.len()
    }
}

} // verus!
