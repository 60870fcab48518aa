//! Tools for decoding and encoding fixed-width integers.
//!
//! The byte-level meaning of every integer is pinned down by two spec
//! functions: [`le_value`] reads a little-endian byte sequence as a number
//! and [`le_bytes`] writes a number as a little-endian byte sequence of a
//! given width; their big-endian counterparts read and write the reversed
//! sequence.  The [`Int`] trait ties each supported integer type to this
//! model through its unsigned representative.

use vstd::prelude::*;

verus! {

/// Byte orders in which an integer can be laid out.
pub trait ByteOrder {
}

/// Most significant byte first.
pub struct BigEndian {}

/// Least significant byte first.
pub struct LittleEndian {}

impl ByteOrder for BigEndian {
}

impl ByteOrder for LittleEndian {
}

/// `256^n`: the number of values a byte sequence of length `n` can take.
pub open spec fn pow256(n: nat) -> nat
    decreases n,
{
    if n == 0 {
        1
    } else {
        256 * pow256((n - 1) as nat)
    }
}

/// The number encoded by a little-endian byte sequence.
pub open spec fn le_value(bytes: Seq<u8>) -> nat
    decreases bytes.len(),
{
    if bytes.len() == 0 {
        0
    } else {
        (bytes[0] + 256 * le_value(bytes.drop_first())) as nat
    }
}

/// The number encoded by a big-endian byte sequence.
pub open spec fn be_value(bytes: Seq<u8>) -> nat {
    le_value(bytes.reverse())
}

/// The little-endian byte sequence of width `width` encoding `v % 256^width`.
pub open spec fn le_bytes(v: nat, width: nat) -> Seq<u8>
    decreases width,
{
    if width == 0 {
        Seq::empty()
    } else {
        seq![(v % 256) as u8] + le_bytes(v / 256, (width - 1) as nat)
    }
}

/// The big-endian byte sequence of width `width` encoding `v % 256^width`.
pub open spec fn be_bytes(v: nat, width: nat) -> Seq<u8> {
    le_bytes(v, width).reverse()
}

/// The powers of 256 for the widths used by the supported integer types.
pub proof fn lemma_pow256_values()
    ensures
        pow256(1) == 0x100,
        pow256(2) == 0x10000,
        pow256(4) == 0x1_0000_0000,
        pow256(8) == 0x1_0000_0000_0000_0000,
        pow256(15) == 0x1_0000_0000_0000_0000_0000_0000_0000_00,
        pow256(16) == 0x1_0000_0000_0000_0000_0000_0000_0000_0000,
{
    assert(pow256(0) == 1);
    assert(pow256(1) == 0x100);
    assert(pow256(2) == 0x10000);
    assert(pow256(3) == 0x100_0000);
    assert(pow256(4) == 0x1_0000_0000);
    assert(pow256(5) == 0x100_0000_0000);
    assert(pow256(6) == 0x1_0000_0000_0000);
    assert(pow256(7) == 0x100_0000_0000_0000);
    assert(pow256(8) == 0x1_0000_0000_0000_0000);
    assert(pow256(9) == 0x100_0000_0000_0000_0000);
    assert(pow256(10) == 0x1_0000_0000_0000_0000_0000);
    assert(pow256(11) == 0x100_0000_0000_0000_0000_0000);
    assert(pow256(12) == 0x1_0000_0000_0000_0000_0000_0000);
    assert(pow256(13) == 0x100_0000_0000_0000_0000_0000_0000);
    assert(pow256(14) == 0x1_0000_0000_0000_0000_0000_0000_0000);
    assert(pow256(15) == 0x100_0000_0000_0000_0000_0000_0000_0000);
    assert(pow256(16) == 0x1_0000_0000_0000_0000_0000_0000_0000_0000);
}

/// Powers of 256 grow with the exponent.
pub proof fn lemma_pow256_mono(a: nat, b: nat)
    requires
        a <= b,
    ensures
        pow256(a) <= pow256(b),
        pow256(a) >= 1,
    decreases b,
{
    if a == b {
        if a == 0 {
        } else {
            lemma_pow256_mono((a - 1) as nat, (b - 1) as nat);
        }
    } else {
        lemma_pow256_mono(a, (b - 1) as nat);
    }
}

/// A little-endian byte sequence of length `n` encodes a number below
/// `256^n`.
pub proof fn lemma_le_value_bound(bytes: Seq<u8>)
    ensures
        le_value(bytes) < pow256(bytes.len()),
    decreases bytes.len(),
{
    if bytes.len() == 0 {
    } else {
        lemma_le_value_bound(bytes.drop_first());
    }
}

/// [`le_bytes`] produces exactly `width` bytes.
pub proof fn lemma_le_bytes_len(v: nat, width: nat)
    ensures
        le_bytes(v, width).len() == width,
    decreases width,
{
    if width == 0 {
    } else {
        lemma_le_bytes_len(v / 256, (width - 1) as nat);
    }
}

/// Writing a number below `256^width` and reading it back yields the number.
pub proof fn lemma_le_bytes_value(v: nat, width: nat)
    requires
        v < pow256(width),
    ensures
        le_value(le_bytes(v, width)) == v,
    decreases width,
{
    if width == 0 {
    } else {
        assert(v / 256 < pow256((width - 1) as nat)) by (nonlinear_arith)
            requires
                v < 256 * pow256((width - 1) as nat),
        ;
        lemma_le_bytes_value(v / 256, (width - 1) as nat);
        let s = le_bytes(v, width);
        assert(s.drop_first() =~= le_bytes(v / 256, (width - 1) as nat));
        assert(v % 256 + 256 * (v / 256) == v) by (nonlinear_arith);
    }
}

/// Reading a byte sequence and writing the number back at the same width
/// yields the byte sequence.
pub proof fn lemma_le_bytes_of_value(s: Seq<u8>)
    ensures
        le_bytes(le_value(s), s.len()) == s,
    decreases s.len(),
{
    if s.len() == 0 {
        assert(le_bytes(le_value(s), s.len()) =~= s);
    } else {
        let v = le_value(s);
        let r = le_value(s.drop_first());
        assert(v == s[0] + 256 * r);
        assert(v % 256 == s[0] && v / 256 == r) by (nonlinear_arith)
            requires
                v == s[0] + 256 * r,
                0 <= s[0] < 256,
                r >= 0,
        ;
        lemma_le_bytes_of_value(s.drop_first());
        assert(le_bytes(v, s.len()) =~= s);
    }
}

/// Appending a byte to a big-endian sequence shifts its value up by one
/// byte and adds the new byte.
pub proof fn lemma_be_snoc(s: Seq<u8>, b: u8)
    ensures
        be_value(s.push(b)) == 256 * be_value(s) + b,
{
    assert(s.push(b).reverse() =~= seq![b] + s.reverse());
    let t = seq![b] + s.reverse();
    assert(t.drop_first() =~= s.reverse());
    assert(le_value(t) == b + 256 * le_value(s.reverse()));
}

/// Reversing a byte sequence twice gives it back.
pub proof fn lemma_reverse_reverse(s: Seq<u8>)
    ensures
        s.reverse().reverse() == s,
{
    assert(s.reverse().reverse() =~= s);
}

/// [`be_bytes`] produces exactly `width` bytes.
pub proof fn lemma_be_bytes_len(v: nat, width: nat)
    ensures
        be_bytes(v, width).len() == width,
{
    lemma_le_bytes_len(v, width);
}

/// Writing a number below `256^width` big-endian and reading it back yields
/// the number.
pub proof fn lemma_be_bytes_value(v: nat, width: nat)
    requires
        v < pow256(width),
    ensures
        be_value(be_bytes(v, width)) == v,
{
    lemma_le_bytes_value(v, width);
    lemma_reverse_reverse(le_bytes(v, width));
}

/// Reads a little-endian byte slice of at most 16 bytes as a number.
pub(crate) fn le_to_u128(bytes: &[u8]) -> (r: u128)
    requires
        bytes@.len() <= 16,
    ensures
        r as nat == le_value(bytes@),
{
    let n = bytes.len();
    let mut acc: u128 = 0;
    let mut i: usize = n;
    proof {
        assert(bytes@.skip(n as int) =~= Seq::<u8>::empty());
    }
    while i > 0
        invariant
            i <= n,
            n == bytes@.len(),
            n <= 16,
            acc as nat == le_value(bytes@.skip(i as int)),
        decreases i,
    {
        i = i - 1;
        proof {
            lemma_le_value_bound(bytes@.skip(i as int + 1));
            lemma_pow256_mono((n - i - 1) as nat, 15);
            lemma_pow256_values();
        }
        acc = acc * 256 + (bytes[i] as u128);
        proof {
            assert(bytes@.skip(i as int).drop_first() =~= bytes@.skip(i as int + 1));
        }
    }
    proof {
        assert(bytes@.skip(0) =~= bytes@);
    }
    acc
}

/// Reads a big-endian byte slice of at most 16 bytes as a number.
pub(crate) fn be_to_u128(bytes: &[u8]) -> (r: u128)
    requires
        bytes@.len() <= 16,
    ensures
        r as nat == be_value(bytes@),
{
    let n = bytes.len();
    let mut acc: u128 = 0;
    let mut i: usize = 0;
    proof {
        assert(bytes@.take(0) =~= Seq::<u8>::empty());
        assert(Seq::<u8>::empty().reverse() =~= Seq::<u8>::empty());
    }
    while i < n
        invariant
            i <= n,
            n == bytes@.len(),
            n <= 16,
            acc as nat == be_value(bytes@.take(i as int)),
        decreases n - i,
    {
        proof {
            let t = bytes@.take(i as int);
            assert(t.reverse().len() == i);
            lemma_le_value_bound(t.reverse());
            lemma_pow256_mono(i as nat, 15);
            lemma_pow256_values();
            lemma_be_snoc(t, bytes@[i as int]);
            assert(t.push(bytes@[i as int]) =~= bytes@.take(i as int + 1));
        }
        acc = acc * 256 + (bytes[i] as u128);
        i = i + 1;
    }
    proof {
        assert(bytes@.take(n as int) =~= bytes@);
    }
    acc
}

/// Writes the low `width` little-endian bytes of a number.
pub(crate) fn u128_to_le(v: u128, width: usize) -> (r: Vec<u8>)
    ensures
        r@ == le_bytes(v as nat, width as nat),
{
    let mut out: Vec<u8> = Vec::new();
    let mut x: u128 = v;
    let mut k: usize = 0;
    proof {
        assert(Seq::<u8>::empty() + le_bytes(v as nat, width as nat) =~= le_bytes(
            v as nat,
            width as nat,
        ));
    }
    while k < width
        invariant
            k <= width,
            out@.len() == k,
            le_bytes(v as nat, width as nat) == out@ + le_bytes(x as nat, (width - k) as nat),
        decreases width - k,
    {
        let ghost x0 = x as nat;
        let ghost m = (width - k) as nat;
        let ghost out0 = out@;
        let b: u8 = (x % 256) as u8;
        out.push(b);
        x = x / 256;
        k = k + 1;
        proof {
            assert(le_bytes(x0, m) == seq![(x0 % 256) as u8] + le_bytes(x0 / 256, (m - 1) as nat));
            assert((x0 % 256) as u8 == b);
            assert(out0 + le_bytes(x0, m) =~= out@ + le_bytes(x as nat, (width - k) as nat));
        }
    }
    proof {
        assert(le_bytes(x as nat, 0) =~= Seq::<u8>::empty());
        assert(out@ + Seq::<u8>::empty() =~= out@);
    }
    out
}

/// Writes the low `width` big-endian bytes of a number.
pub(crate) fn u128_to_be(v: u128, width: usize) -> (r: Vec<u8>)
    ensures
        r@ == be_bytes(v as nat, width as nat),
{
    let le = u128_to_le(v, width);
    let n = le.len();
    let mut out: Vec<u8> = Vec::new();
    let mut i: usize = n;
    while i > 0
        invariant
            i <= n,
            n == le@.len(),
            out@.len() == n - i,
            forall|j: int| 0 <= j < out@.len() ==> out@[j] == le@[n - 1 - j],
        decreases i,
    {
        i = i - 1;
        out.push(le[i]);
    }
    proof {
        assert(out@ =~= le@.reverse());
    }
    out
}

/// An integer type that can be decoded from and encoded into a fixed number
/// of bytes.
///
/// Every value is tied to its unsigned representative
/// [`Int::spec_unsigned`], the number its byte layout encodes; for signed
/// types this is the two's-complement reading.
pub trait Int: Sized + Copy {
    /// The number of bytes this type occupies.
    spec fn spec_width() -> nat;

    /// The unsigned number the byte layout of `self` encodes.
    spec fn spec_unsigned(self) -> nat;

    /// The value whose byte layout encodes `n`.
    spec fn from_unsigned(n: nat) -> Self;

    /// Law: the type is between one and sixteen bytes wide, and the unsigned
    /// representative fits the width and determines the value.
    proof fn lemma_unsigned(self)
        ensures
            1 <= Self::spec_width() <= 16,
            Self::spec_unsigned(self) < pow256(Self::spec_width()),
            Self::from_unsigned(Self::spec_unsigned(self)) == self,
    ;

    /// Law: every number that fits the width is some value's representative.
    proof fn lemma_from_unsigned(n: nat)
        requires
            n < pow256(Self::spec_width()),
        ensures
            Self::spec_unsigned(Self::from_unsigned(n)) == n,
    ;

    /// The number of bytes this type occupies.
    fn width() -> (r: usize)
        ensures
            r == Self::spec_width(),
    ;

    /// Reads a value from its little-endian bytes.
    fn from_le_bytes(bytes: &[u8]) -> (r: Self)
        requires
            bytes@.len() == Self::spec_width(),
        ensures
            r == Self::from_unsigned(le_value(bytes@)),
    ;

    /// Reads a value from its big-endian bytes.
    fn from_be_bytes(bytes: &[u8]) -> (r: Self)
        requires
            bytes@.len() == Self::spec_width(),
        ensures
            r == Self::from_unsigned(be_value(bytes@)),
    ;

    /// Writes a value as its little-endian bytes.
    fn to_le_bytes(self) -> (r: Vec<u8>)
        ensures
            r@ == le_bytes(Self::spec_unsigned(self), Self::spec_width()),
    ;

    /// Writes a value as its big-endian bytes.
    fn to_be_bytes(self) -> (r: Vec<u8>)
        ensures
            r@ == be_bytes(Self::spec_unsigned(self), Self::spec_width()),
    ;
}

impl Int for u8 {
    open spec fn spec_width() -> nat {
        1
    }

    open spec fn spec_unsigned(self) -> nat {
        self as nat
    }

    open spec fn from_unsigned(n: nat) -> u8 {
        n as u8
    }

    proof fn lemma_unsigned(self) {
        lemma_pow256_values();
    }

    proof fn lemma_from_unsigned(n: nat) {
        lemma_pow256_values();
    }

    fn width() -> usize {
        1
    }

    fn from_le_bytes(bytes: &[u8]) -> (r: u8) {
        proof {
            lemma_le_value_bound(bytes@);
            lemma_pow256_values();
        }
        let v = le_to_u128(bytes);
        v as u8
    }

    fn from_be_bytes(bytes: &[u8]) -> (r: u8) {
        proof {
            lemma_le_value_bound(bytes@.reverse());
            lemma_pow256_values();
        }
        let v = be_to_u128(bytes);
        v as u8
    }

    fn to_le_bytes(self) -> (r: Vec<u8>) {
        u128_to_le(self as u128, 1)
    }

    fn to_be_bytes(self) -> (r: Vec<u8>) {
        u128_to_be(self as u128, 1)
    }
}

impl Int for u16 {
    open spec fn spec_width() -> nat {
        2
    }

    open spec fn spec_unsigned(self) -> nat {
        self as nat
    }

    open spec fn from_unsigned(n: nat) -> u16 {
        n as u16
    }

    proof fn lemma_unsigned(self) {
        lemma_pow256_values();
    }

    proof fn lemma_from_unsigned(n: nat) {
        lemma_pow256_values();
    }

    fn width() -> usize {
        2
    }

    fn from_le_bytes(bytes: &[u8]) -> (r: u16) {
        proof {
            lemma_le_value_bound(bytes@);
            lemma_pow256_values();
        }
        let v = le_to_u128(bytes);
        v as u16
    }

    fn from_be_bytes(bytes: &[u8]) -> (r: u16) {
        proof {
            lemma_le_value_bound(bytes@.reverse());
            lemma_pow256_values();
        }
        let v = be_to_u128(bytes);
        v as u16
    }

    fn to_le_bytes(self) -> (r: Vec<u8>) {
        u128_to_le(self as u128, 2)
    }

    fn to_be_bytes(self) -> (r: Vec<u8>) {
        u128_to_be(self as u128, 2)
    }
}

impl Int for u32 {
    open spec fn spec_width() -> nat {
        4
    }

    open spec fn spec_unsigned(self) -> nat {
        self as nat
    }

    open spec fn from_unsigned(n: nat) -> u32 {
        n as u32
    }

    proof fn lemma_unsigned(self) {
        lemma_pow256_values();
    }

    proof fn lemma_from_unsigned(n: nat) {
        lemma_pow256_values();
    }

    fn width() -> usize {
        4
    }

    fn from_le_bytes(bytes: &[u8]) -> (r: u32) {
        proof {
            lemma_le_value_bound(bytes@);
            lemma_pow256_values();
        }
        let v = le_to_u128(bytes);
        v as u32
    }

    fn from_be_bytes(bytes: &[u8]) -> (r: u32) {
        proof {
            lemma_le_value_bound(bytes@.reverse());
            lemma_pow256_values();
        }
        let v = be_to_u128(bytes);
        v as u32
    }

    fn to_le_bytes(self) -> (r: Vec<u8>) {
        u128_to_le(self as u128, 4)
    }

    fn to_be_bytes(self) -> (r: Vec<u8>) {
        u128_to_be(self as u128, 4)
    }
}

impl Int for u64 {
    open spec fn spec_width() -> nat {
        8
    }

    open spec fn spec_unsigned(self) -> nat {
        self as nat
    }

    open spec fn from_unsigned(n: nat) -> u64 {
        n as u64
    }

    proof fn lemma_unsigned(self) {
        lemma_pow256_values();
    }

    proof fn lemma_from_unsigned(n: nat) {
        lemma_pow256_values();
    }

    fn width() -> usize {
        8
    }

    fn from_le_bytes(bytes: &[u8]) -> (r: u64) {
        proof {
            lemma_le_value_bound(bytes@);
            lemma_pow256_values();
        }
        let v = le_to_u128(bytes);
        v as u64
    }

    fn from_be_bytes(bytes: &[u8]) -> (r: u64) {
        proof {
            lemma_le_value_bound(bytes@.reverse());
            lemma_pow256_values();
        }
        let v = be_to_u128(bytes);
        v as u64
    }

    fn to_le_bytes(self) -> (r: Vec<u8>) {
        u128_to_le(self as u128, 8)
    }

    fn to_be_bytes(self) -> (r: Vec<u8>) {
        u128_to_be(self as u128, 8)
    }
}

impl Int for u128 {
    open spec fn spec_width() -> nat {
        16
    }

    open spec fn spec_unsigned(self) -> nat {
        self as nat
    }

    open spec fn from_unsigned(n: nat) -> u128 {
        n as u128
    }

    proof fn lemma_unsigned(self) {
        lemma_pow256_values();
    }

    proof fn lemma_from_unsigned(n: nat) {
        lemma_pow256_values();
    }

    fn width() -> usize {
        16
    }

    fn from_le_bytes(bytes: &[u8]) -> (r: u128) {
        proof {
            lemma_le_value_bound(bytes@);
            lemma_pow256_values();
        }
        le_to_u128(bytes)
    }

    fn from_be_bytes(bytes: &[u8]) -> (r: u128) {
        proof {
            lemma_le_value_bound(bytes@.reverse());
            lemma_pow256_values();
        }
        be_to_u128(bytes)
    }

    fn to_le_bytes(self) -> (r: Vec<u8>) {
        u128_to_le(self, 16)
    }

    fn to_be_bytes(self) -> (r: Vec<u8>) {
        u128_to_be(self, 16)
    }
}

impl Int for i8 {
    open spec fn spec_width() -> nat {
        1
    }

    open spec fn spec_unsigned(self) -> nat {
        if self >= 0 {
            self as nat
        } else {
            (self + 0x100) as nat
        }
    }

    open spec fn from_unsigned(n: nat) -> i8 {
        if n < 0x80 {
            n as i8
        } else {
            (n - 0x100) as i8
        }
    }

    proof fn lemma_unsigned(self) {
        lemma_pow256_values();
    }

    proof fn lemma_from_unsigned(n: nat) {
        lemma_pow256_values();
    }

    fn width() -> usize {
        1
    }

    fn from_le_bytes(bytes: &[u8]) -> (r: i8) {
        proof {
            lemma_le_value_bound(bytes@);
            lemma_pow256_values();
        }
        let v = le_to_u128(bytes);
        if v < 0x80 {
            v as i8
        } else {
            ((v as i64) - 0x100i64) as i8
        }
    }

    fn from_be_bytes(bytes: &[u8]) -> (r: i8) {
        proof {
            lemma_le_value_bound(bytes@.reverse());
            lemma_pow256_values();
        }
        let v = be_to_u128(bytes);
        if v < 0x80 {
            v as i8
        } else {
            ((v as i64) - 0x100i64) as i8
        }
    }

    fn to_le_bytes(self) -> (r: Vec<u8>) {
        let u: u128 = if self >= 0 {
            self as u128
        } else {
            ((self as i64) + 0x100i64) as u128
        };
        u128_to_le(u, 1)
    }

    fn to_be_bytes(self) -> (r: Vec<u8>) {
        let u: u128 = if self >= 0 {
            self as u128
        } else {
            ((self as i64) + 0x100i64) as u128
        };
        u128_to_be(u, 1)
    }
}

impl Int for i16 {
    open spec fn spec_width() -> nat {
        2
    }

    open spec fn spec_unsigned(self) -> nat {
        if self >= 0 {
            self as nat
        } else {
            (self + 0x1_0000) as nat
        }
    }

    open spec fn from_unsigned(n: nat) -> i16 {
        if n < 0x8000 {
            n as i16
        } else {
            (n - 0x1_0000) as i16
        }
    }

    proof fn lemma_unsigned(self) {
        lemma_pow256_values();
    }

    proof fn lemma_from_unsigned(n: nat) {
        lemma_pow256_values();
    }

    fn width() -> usize {
        2
    }

    fn from_le_bytes(bytes: &[u8]) -> (r: i16) {
        proof {
            lemma_le_value_bound(bytes@);
            lemma_pow256_values();
        }
        let v = le_to_u128(bytes);
        if v < 0x8000 {
            v as i16
        } else {
            ((v as i64) - 0x1_0000i64) as i16
        }
    }

    fn from_be_bytes(bytes: &[u8]) -> (r: i16) {
        proof {
            lemma_le_value_bound(bytes@.reverse());
            lemma_pow256_values();
        }
        let v = be_to_u128(bytes);
        if v < 0x8000 {
            v as i16
        } else {
            ((v as i64) - 0x1_0000i64) as i16
        }
    }

    fn to_le_bytes(self) -> (r: Vec<u8>) {
        let u: u128 = if self >= 0 {
            self as u128
        } else {
            ((self as i64) + 0x1_0000i64) as u128
        };
        u128_to_le(u, 2)
    }

    fn to_be_bytes(self) -> (r: Vec<u8>) {
        let u: u128 = if self >= 0 {
            self as u128
        } else {
            ((self as i64) + 0x1_0000i64) as u128
        };
        u128_to_be(u, 2)
    }
}

impl Int for i32 {
    open spec fn spec_width() -> nat {
        4
    }

    open spec fn spec_unsigned(self) -> nat {
        if self >= 0 {
            self as nat
        } else {
            (self + 0x1_0000_0000) as nat
        }
    }

    open spec fn from_unsigned(n: nat) -> i32 {
        if n < 0x8000_0000 {
            n as i32
        } else {
            (n - 0x1_0000_0000) as i32
        }
    }

    proof fn lemma_unsigned(self) {
        lemma_pow256_values();
    }

    proof fn lemma_from_unsigned(n: nat) {
        lemma_pow256_values();
    }

    fn width() -> usize {
        4
    }

    fn from_le_bytes(bytes: &[u8]) -> (r: i32) {
        proof {
            lemma_le_value_bound(bytes@);
            lemma_pow256_values();
        }
        let v = le_to_u128(bytes);
        if v < 0x8000_0000 {
            v as i32
        } else {
            ((v as i64) - 0x1_0000_0000i64) as i32
        }
    }

    fn from_be_bytes(bytes: &[u8]) -> (r: i32) {
        proof {
            lemma_le_value_bound(bytes@.reverse());
            lemma_pow256_values();
        }
        let v = be_to_u128(bytes);
        if v < 0x8000_0000 {
            v as i32
        } else {
            ((v as i64) - 0x1_0000_0000i64) as i32
        }
    }

    fn to_le_bytes(self) -> (r: Vec<u8>) {
        let u: u128 = if self >= 0 {
            self as u128
        } else {
            ((self as i64) + 0x1_0000_0000i64) as u128
        };
        u128_to_le(u, 4)
    }

    fn to_be_bytes(self) -> (r: Vec<u8>) {
        let u: u128 = if self >= 0 {
            self as u128
        } else {
            ((self as i64) + 0x1_0000_0000i64) as u128
        };
        u128_to_be(u, 4)
    }
}

impl Int for i64 {
    open spec fn spec_width() -> nat {
        8
    }

    open spec fn spec_unsigned(self) -> nat {
        if self >= 0 {
            self as nat
        } else {
            (self + 0x1_0000_0000_0000_0000) as nat
        }
    }

    open spec fn from_unsigned(n: nat) -> i64 {
        if n < 0x8000_0000_0000_0000 {
            n as i64
        } else {
            (n - 0x1_0000_0000_0000_0000) as i64
        }
    }

    proof fn lemma_unsigned(self) {
        lemma_pow256_values();
    }

    proof fn lemma_from_unsigned(n: nat) {
        lemma_pow256_values();
    }

    fn width() -> usize {
        8
    }

    fn from_le_bytes(bytes: &[u8]) -> (r: i64) {
        proof {
            lemma_le_value_bound(bytes@);
            lemma_pow256_values();
        }
        let v = le_to_u128(bytes);
        if v < 0x8000_0000_0000_0000 {
            v as i64
        } else {
            ((v as i128) - 0x1_0000_0000_0000_0000i128) as i64
        }
    }

    fn from_be_bytes(bytes: &[u8]) -> (r: i64) {
        proof {
            lemma_le_value_bound(bytes@.reverse());
            lemma_pow256_values();
        }
        let v = be_to_u128(bytes);
        if v < 0x8000_0000_0000_0000 {
            v as i64
        } else {
            ((v as i128) - 0x1_0000_0000_0000_0000i128) as i64
        }
    }

    fn to_le_bytes(self) -> (r: Vec<u8>) {
        let u: u128 = if self >= 0 {
            self as u128
        } else {
            ((self as i128) + 0x1_0000_0000_0000_0000i128) as u128
        };
        u128_to_le(u, 8)
    }

    fn to_be_bytes(self) -> (r: Vec<u8>) {
        let u: u128 = if self >= 0 {
            self as u128
        } else {
            ((self as i128) + 0x1_0000_0000_0000_0000i128) as u128
        };
        u128_to_be(u, 8)
    }
}

impl Int for i128 {
    open spec fn spec_width() -> nat {
        16
    }

    open spec fn spec_unsigned(self) -> nat {
        if self >= 0 {
            self as nat
        } else {
            (self + 0x1_0000_0000_0000_0000_0000_0000_0000_0000) as nat
        }
    }

    open spec fn from_unsigned(n: nat) -> i128 {
        if n < 0x8000_0000_0000_0000_0000_0000_0000_0000 {
            n as i128
        } else {
            (n - 0x1_0000_0000_0000_0000_0000_0000_0000_0000) as i128
        }
    }

    proof fn lemma_unsigned(self) {
        lemma_pow256_values();
    }

    proof fn lemma_from_unsigned(n: nat) {
        lemma_pow256_values();
    }

    fn width() -> usize {
        16
    }

    fn from_le_bytes(bytes: &[u8]) -> (r: i128) {
        proof {
            lemma_le_value_bound(bytes@);
            lemma_pow256_values();
        }
        let v = le_to_u128(bytes);
        if v < 0x8000_0000_0000_0000_0000_0000_0000_0000 {
            v as i128
        } else {
            let d = v - 0x8000_0000_0000_0000_0000_0000_0000_0000u128;
            (d as i128) + i128::MIN
        }
    }

    fn from_be_bytes(bytes: &[u8]) -> (r: i128) {
        proof {
            lemma_le_value_bound(bytes@.reverse());
            lemma_pow256_values();
        }
        let v = be_to_u128(bytes);
        if v < 0x8000_0000_0000_0000_0000_0000_0000_0000 {
            v as i128
        } else {
            let d = v - 0x8000_0000_0000_0000_0000_0000_0000_0000u128;
            (d as i128) + i128::MIN
        }
    }

    fn to_le_bytes(self) -> (r: Vec<u8>) {
        let u: u128 = if self >= 0 {
            self as u128
        } else {
            ((self - i128::MIN) as u128) + 0x8000_0000_0000_0000_0000_0000_0000_0000u128
        };
        u128_to_le(u, 16)
    }

    fn to_be_bytes(self) -> (r: Vec<u8>) {
        let u: u128 = if self >= 0 {
            self as u128
        } else {
            ((self - i128::MIN) as u128) + 0x8000_0000_0000_0000_0000_0000_0000_0000u128
        };
        u128_to_be(u, 16)
    }
}

} // verus!
