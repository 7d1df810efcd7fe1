//! Wire primitives: variable-length integers, length-prefixed byte strings
//! and text, and big-endian fixed-width integers, together with the
//! specification-level encodings and parsers that their contracts are
//! stated over.

use vstd::prelude::*;
use vstd::slice::{slice_subrange, slice_to_vec};
use vstd::string::StrSliceExecFns;
use vstd::utf8::{decode_utf8, encode_utf8, valid_utf8};

use crate::CodecError;

verus! {

/// Canonical encoding of a 32-bit value as a varint: seven payload bits per
/// byte, least significant group first, the high bit of a byte set exactly
/// when more bytes follow.
pub open spec fn varint_enc(v: nat) -> Seq<u8>
    decreases v,
{
    if v < 128 {
        seq![v as u8]
    } else {
        seq![(v % 128 + 128) as u8] + varint_enc(v / 128)
    }
}

/// The bit pattern of an `i32`, as the natural number a varint carries.
pub open spec fn u32_of_i32(v: i32) -> nat {
    (v as u32) as nat
}

/// The `i32` whose bit pattern is `v`'s low 32 bits.
pub open spec fn i32_of_int(v: int) -> i32 {
    (v as u32) as i32
}

/// Outcome of reading a varint from the front of a byte sequence.
pub enum VarintParse {
    /// The decoded (untruncated) value and the number of bytes it occupied.
    Value(int, nat),
    /// Five bytes were present and each carried the continuation bit.
    TooLong,
    /// The sequence ended while a continuation bit was still set.
    Short,
}

/// Reads a varint of at most `k` further bytes from the front of `s`.
pub open spec fn varint_parse_k(s: Seq<u8>, k: nat) -> VarintParse
    decreases k,
{
    if k == 0 {
        VarintParse::TooLong
    } else if s.len() == 0 {
        VarintParse::Short
    } else if s[0] < 128 {
        VarintParse::Value(s[0] as int, 1)
    } else {
        match varint_parse_k(s.skip(1), (k - 1) as nat) {
            VarintParse::Value(v, n) => VarintParse::Value((s[0] - 128) + 128 * v, (n + 1) as nat),
            r => r,
        }
    }
}

/// Reads one varint (at most five bytes) from the front of `s`.
pub open spec fn varint_parse(s: Seq<u8>) -> VarintParse {
    varint_parse_k(s, 5)
}

/// 128 to the `k`-th power: the number of values a varint of `k` bytes can
/// carry.
pub open spec fn pow128(k: nat) -> nat
    decreases k,
{
    if k == 0 {
        1
    } else {
        128 * pow128((k - 1) as nat)
    }
}

/// The powers of 128 the varint proofs case on, spelled out.
pub proof fn lemma_pow128_values()
    ensures
        pow128(0) == 1,
        pow128(1) == 128,
        pow128(2) == 16384,
        pow128(3) == 2097152,
        pow128(4) == 268435456,
        pow128(5) == 34359738368,
{
    assert(pow128(0) == 1);
    assert(pow128(1) == 128);
    assert(pow128(2) == 16384);
    assert(pow128(3) == 2097152);
    assert(pow128(4) == 268435456);
    assert(pow128(5) == 34359738368);
}

/// A varint of a value below `pow128(k)` takes at most `k` bytes.
pub proof fn lemma_varint_enc_len(v: nat, k: nat)
    requires
        1 <= k,
        v < pow128(k),
    ensures
        1 <= varint_enc(v).len() <= k,
    decreases k,
{
    if v >= 128 {
        assert(pow128(k) == 128 * pow128((k - 1) as nat));
        assert(v / 128 < pow128((k - 1) as nat));
        lemma_varint_enc_len(v / 128, (k - 1) as nat);
    }
}

/// Decoding a canonical encoding returns the value and its length, whatever
/// bytes follow it.
pub proof fn lemma_varint_parse_enc(v: nat, rest: Seq<u8>, k: nat)
    requires
        1 <= k <= 5,
        v < pow128(k),
    ensures
        varint_parse_k(varint_enc(v) + rest, k) == VarintParse::Value(
            v as int,
            varint_enc(v).len(),
        ),
    decreases k,
{
    let s = varint_enc(v) + rest;
    if v < 128 {
        assert(s[0] == v as u8);
    } else {
        assert(pow128(k) == 128 * pow128((k - 1) as nat));
        assert(v / 128 < pow128((k - 1) as nat));
        assert(s[0] == (v % 128 + 128) as u8);
        assert(s[0] >= 128);
        assert(s.skip(1) =~= varint_enc(v / 128) + rest);
        lemma_varint_parse_enc(v / 128, rest, (k - 1) as nat);
        lemma_varint_enc_len(v / 128, (k - 1) as nat);
        assert(varint_parse_k(s.skip(1), (k - 1) as nat) == VarintParse::Value(
            (v / 128) as int,
            varint_enc(v / 128).len(),
        ));
        assert((s[0] - 128) + 128 * ((v / 128) as int) == v as int) by {
            assert(s[0] == (v % 128 + 128) as u8);
            assert(v % 128 + 128 < 256);
            assert(s[0] as int == v % 128 + 128);
        };
        assert(varint_enc(v).len() == 1 + varint_enc(v / 128).len());
    }
}

/// Every valid 32-bit pattern fits in five varint bytes: the round trip for
/// the full `i32` range, negative values included.
pub proof fn lemma_varint_round_trip(v: i32, rest: Seq<u8>)
    ensures
        varint_parse(varint_enc(u32_of_i32(v)) + rest) == VarintParse::Value(
            u32_of_i32(v) as int,
            varint_enc(u32_of_i32(v)).len(),
        ),
        1 <= varint_enc(u32_of_i32(v)).len() <= 5,
        i32_of_int(u32_of_i32(v) as int) == v,
{
    lemma_pow128_values();
    assert(u32_of_i32(v) < pow128(5));
    lemma_varint_parse_enc(u32_of_i32(v), rest, 5);
    lemma_varint_enc_len(u32_of_i32(v), 5);
    assert(((v as u32) as i32) == v) by (bit_vector);
}

/// A non-negative `i32` encodes as its own value: `u32_of_i32` is the
/// identity on it.
pub proof fn lemma_u32_of_nonneg(v: i32)
    requires
        v >= 0,
    ensures
        u32_of_i32(v) == v as nat,
        i32_of_int(v as int) == v,
{
    assert(v >= 0 ==> (v as u32) as int == v as int) by (bit_vector);
    assert(v >= 0 ==> ((v as u32) as i32) == v) by (bit_vector);
}

/// A result of `read_varint`: the decoded value and how many bytes encoded
/// it.
pub struct Varint21 {
    pub ans: i32,
    pub size: u8,
}

/// A cursor over an in-memory byte string, the source all reading
/// primitives work on.
pub struct Reader<'a> {
    pub data: &'a [u8],
    pub pos: usize,
}

impl<'a> Reader<'a> {
    /// The cursor has not run past the end of the data.
    pub open spec fn wf(self) -> bool {
        self.pos <= self.data@.len()
    }

    /// The bytes not consumed yet.
    pub open spec fn remaining(self) -> Seq<u8> {
        self.data@.skip(self.pos as int)
    }

    pub fn new(data: &'a [u8]) -> (r: Reader<'a>)
        ensures
            r.wf(),
            r.data@ == data@,
            r.pos == 0,
            r.remaining() == data@,
    {
        let r = Reader { data, pos: 0 };
        proof {
            assert(r.remaining() =~= data@);
        }
        r
    }

    /// How many bytes are left to read.
    pub fn remaining_len(&self) -> (n: usize)
        requires
            self.wf(),
        ensures
            n == self.remaining().len(),
    {
        self.data.len() - self.pos
    }

    /// Reads one byte; fails with `Io` exactly when none is left.
    pub fn read_u8(&mut self) -> (r: Result<u8, CodecError>)
        requires
            old(self).wf(),
        ensures
            final(self).wf(),
            final(self).data == old(self).data,
            match r {
                Ok(b) => old(self).remaining().len() > 0 && b == old(self).remaining()[0]
                    && final(self).pos == old(self).pos + 1,
                Err(e) => e == CodecError::Io && old(self).remaining().len() == 0 && *final(self)
                    == *old(self),
            },
    {
        if self.pos < self.data.len() {
            let b = self.data[self.pos];
            self.pos = self.pos + 1;
            Ok(b)
        } else {
            Err(CodecError::Io)
        }
    }
    /// Reads a varint of at most `k` further bytes, mirroring
    /// `varint_parse_k`. The value is returned untruncated; five payload
    /// groups fit in a `u64`.
    fn read_varint_rec(&mut self, k: u8) -> (r: Result<(u64, u8), CodecError>)
        requires
            old(self).wf(),
            1 <= k <= 5,
        ensures
            final(self).wf(),
            final(self).data == old(self).data,
            match r {
                Ok((v, n)) => varint_parse_k(old(self).remaining(), k as nat)
                    == VarintParse::Value(v as int, n as nat) && final(self).pos == old(self).pos
                    + n && 1 <= n <= k && (v as nat) < pow128(k as nat),
                Err(CodecError::VarintTooLong) => varint_parse_k(old(self).remaining(), k as nat)
                    == VarintParse::TooLong,
                Err(CodecError::Io) => varint_parse_k(old(self).remaining(), k as nat)
                    == VarintParse::Short,
                Err(_) => false,
            },
        decreases k,
    {
        let ghost s = self.remaining();
        let b = match self.read_u8() {
            Ok(b) => b,
            Err(_) => {
                return Err(CodecError::Io);
            },
        };
        if b < 128 {
            proof {
                lemma_pow128_values();
                assert(pow128(k as nat) >= pow128(1)) by {
                    lemma_pow128_mono(1, k as nat);
                };
                assert(varint_parse_k(s, k as nat) == VarintParse::Value(b as int, 1));
            }
            Ok((b as u64, 1))
        } else if k == 1 {
            proof {
                assert(varint_parse_k(s.skip(1), 0) == VarintParse::TooLong);
                assert(varint_parse_k(s, 1) == VarintParse::TooLong);
            }
            Err(CodecError::VarintTooLong)
        } else {
            proof {
                assert(self.remaining() =~= s.skip(1));
            }
            match self.read_varint_rec(k - 1) {
                Ok((v, n)) => {
                    proof {
                        assert(pow128(k as nat) == 128 * pow128((k - 1) as nat));
                        assert(pow128((k - 1) as nat) <= pow128(4)) by {
                            lemma_pow128_mono((k - 1) as nat, 4);
                        };
                        lemma_pow128_values();
                        assert(varint_parse_k(s, k as nat) == VarintParse::Value(
                            (s[0] - 128) + 128 * (v as int),
                            (n + 1) as nat,
                        ));
                    }
                    let v2 = 128 * v + ((b - 128) as u64);
                    proof {
                        assert(v2 as int == (s[0] - 128) + 128 * (v as int));
                        assert((v2 as nat) < pow128(k as nat));
                    }
                    Ok((v2, n + 1))
                },
                Err(e) => {
                    proof {
                        assert(varint_parse_k(s, k as nat) == varint_parse_k(
                            s.skip(1),
                            (k - 1) as nat,
                        ));
                    }
                    Err(e)
                },
            }
        }
    }

    /// Reads one varint: one to five bytes, value truncated to the low 32
    /// bits as the protocol prescribes. Fails with `VarintTooLong` when the
    /// first five bytes all carry the continuation bit, with `Io` when the
    /// input ends first.
    pub fn read_varint(&mut self) -> (r: Result<Varint21, CodecError>)
        requires
            old(self).wf(),
        ensures
            final(self).wf(),
            final(self).data == old(self).data,
            match r {
                Ok(v) => varint_parse(old(self).remaining()) matches VarintParse::Value(val, n)
                    && v.ans == i32_of_int(val) && v.size == n && final(self).pos == old(self).pos
                    + n && 1 <= n <= 5,
                Err(CodecError::VarintTooLong) => varint_parse(old(self).remaining())
                    == VarintParse::TooLong,
                Err(CodecError::Io) => varint_parse(old(self).remaining()) == VarintParse::Short,
                Err(_) => false,
            },
    {
        match self.read_varint_rec(5) {
            Ok((v, n)) => {
                let ans = #[verifier::truncate] (v as i32);
                proof {
                    assert(v as i32 == ((v as int as u32) as i32)) by (bit_vector);
                }
                Ok(Varint21 { ans, size: n })
            },
            Err(e) => Err(e),
        }
    }
}

/// Outcome of a specification-level parser: the parsed value with the
/// number of bytes it consumed, or the error the reader reports.
pub enum Parsed<T> {
    Val(T, nat),
    Fail(CodecError),
}

/// What `read_varint` yields on the front of `s`: the truncated value and
/// the encoded length.
pub open spec fn parse_varint(s: Seq<u8>) -> Parsed<(i32, u8)> {
    match varint_parse(s) {
        VarintParse::Value(v, n) => Parsed::Val((i32_of_int(v), n as u8), n),
        VarintParse::TooLong => Parsed::Fail(CodecError::VarintTooLong),
        VarintParse::Short => Parsed::Fail(CodecError::Io),
    }
}

/// What `read_bytes` yields on the front of `s`: a varint length that must
/// lie in `0 ..= limit`, then that many raw bytes.
pub open spec fn parse_bytes(s: Seq<u8>, limit: i32) -> Parsed<Seq<u8>> {
    match parse_varint(s) {
        Parsed::Val((len, _), n) => if len < 0 || len > limit {
            Parsed::Fail(CodecError::LengthExceedsLimit)
        } else if s.len() < n + len {
            Parsed::Fail(CodecError::Io)
        } else {
            Parsed::Val(s.subrange(n as int, n + len), (n + len) as nat)
        },
        Parsed::Fail(e) => Parsed::Fail(e),
    }
}

/// The text `String::from_utf8_lossy` decodes from `b`: a function of the
/// bytes alone. Its relation to `decode_utf8` on valid UTF-8 is stated by
/// the reader that calls it.
pub uninterp spec fn utf8_lossy(b: Seq<u8>) -> Seq<char>;

/// What `read_string` yields on the front of `s`: a length-prefixed byte
/// string, decoded as UTF-8 with replacement characters, whose decoded
/// length in characters must not exceed `limit`.
pub open spec fn parse_string(s: Seq<u8>, limit: i32) -> Parsed<Seq<char>> {
    match parse_bytes(s, 0x7fffffff) {
        Parsed::Val(b, n) => if utf8_lossy(b).len() > limit {
            Parsed::Fail(CodecError::LengthExceedsLimit)
        } else {
            Parsed::Val(utf8_lossy(b), n)
        },
        Parsed::Fail(e) => Parsed::Fail(e),
    }
}

/// What `read_u8` yields on the front of `s`.
pub open spec fn parse_u8(s: Seq<u8>) -> Parsed<u8> {
    if s.len() < 1 {
        Parsed::Fail(CodecError::Io)
    } else {
        Parsed::Val(s[0], 1)
    }
}

/// What `read_bool` yields on the front of `s`: one byte, true exactly on
/// the value one.
pub open spec fn parse_bool(s: Seq<u8>) -> Parsed<bool> {
    if s.len() < 1 {
        Parsed::Fail(CodecError::Io)
    } else {
        Parsed::Val(s[0] == 1, 1)
    }
}

/// The `i16` whose big-endian bytes are `b0 b1`.
pub open spec fn i16_of_be(b0: u8, b1: u8) -> i16 {
    (((b0 as u16) << 8) | (b1 as u16)) as i16
}

/// What `read_i16` yields on the front of `s`.
pub open spec fn parse_i16(s: Seq<u8>) -> Parsed<i16> {
    if s.len() < 2 {
        Parsed::Fail(CodecError::Io)
    } else {
        Parsed::Val(i16_of_be(s[0], s[1]), 2)
    }
}

/// The `i32` whose big-endian bytes are `b0 b1 b2 b3`.
pub open spec fn i32_of_be(b0: u8, b1: u8, b2: u8, b3: u8) -> i32 {
    (((b0 as u32) << 24) | ((b1 as u32) << 16) | ((b2 as u32) << 8) | (b3 as u32)) as i32
}

/// What `read_i32_be` yields on the front of `s`.
pub open spec fn parse_i32_be(s: Seq<u8>) -> Parsed<i32> {
    if s.len() < 4 {
        Parsed::Fail(CodecError::Io)
    } else {
        Parsed::Val(i32_of_be(s[0], s[1], s[2], s[3]), 4)
    }
}

/// The `i64` whose big-endian bytes are `s[0] .. s[7]`.
pub open spec fn i64_of_be(s: Seq<u8>) -> i64 {
    (((s[0] as u64) << 56) | ((s[1] as u64) << 48) | ((s[2] as u64) << 40) | ((s[3] as u64) << 32)
        | ((s[4] as u64) << 24) | ((s[5] as u64) << 16) | ((s[6] as u64) << 8) | (s[7] as u64)) as i64
}

/// What `read_i64` yields on the front of `s`.
pub open spec fn parse_i64(s: Seq<u8>) -> Parsed<i64> {
    if s.len() < 8 {
        Parsed::Fail(CodecError::Io)
    } else {
        Parsed::Val(i64_of_be(s), 8)
    }
}

/// The encoding `write_bytes` emits: a varint length prefix, then the bytes.
pub open spec fn bytes_enc(b: Seq<u8>) -> Seq<u8> {
    varint_enc(b.len()) + b
}

/// The encoding `write_string` emits: the UTF-8 bytes of the text, length
/// prefixed.
pub open spec fn string_enc(s: Seq<char>) -> Seq<u8> {
    bytes_enc(encode_utf8(s))
}

/// The big-endian encoding of an `i16`.
pub open spec fn be16_enc(v: i16) -> Seq<u8> {
    seq![((v as u16) >> 8) as u8, (v as u16) as u8]
}

/// The big-endian encoding of an `i32`.
pub open spec fn be32_enc(v: i32) -> Seq<u8> {
    seq![
        ((v as u32) >> 24) as u8,
        ((v as u32) >> 16) as u8,
        ((v as u32) >> 8) as u8,
        (v as u32) as u8,
    ]
}

/// The big-endian encoding of an `i64`.
pub open spec fn be64_enc(v: i64) -> Seq<u8> {
    seq![
        ((v as u64) >> 56) as u8,
        ((v as u64) >> 48) as u8,
        ((v as u64) >> 40) as u8,
        ((v as u64) >> 32) as u8,
        ((v as u64) >> 24) as u8,
        ((v as u64) >> 16) as u8,
        ((v as u64) >> 8) as u8,
        (v as u64) as u8,
    ]
}

/// The one-byte encoding of a `bool`.
pub open spec fn bool_enc(v: bool) -> Seq<u8> {
    seq![if v { 1u8 } else { 0u8 }]
}

/// `pow128` grows with its argument.
pub proof fn lemma_pow128_mono(a: nat, b: nat)
    requires
        a <= b,
    ensures
        pow128(a) <= pow128(b),
    decreases b,
{
    if a < b {
        lemma_pow128_mono(a, (b - 1) as nat);
        assert(pow128(b) == 128 * pow128((b - 1) as nat));
    }
}

/// Appends the canonical varint encoding of the 32-bit pattern `v`.
pub fn write_varint_u32(out: &mut Vec<u8>, v: u32)
    ensures
        final(out)@ == old(out)@ + varint_enc(v as nat),
    decreases v,
{
    if v < 128 {
        out.push(v as u8);
        proof {
            assert(out@ =~= old(out)@ + varint_enc(v as nat));
        }
    } else {
        let b = (v % 128 + 128) as u8;
        let ghost mid = out@;
        out.push(b);
        write_varint_u32(out, v / 128);
        proof {
            assert(out@ =~= old(out)@ + varint_enc(v as nat));
        }
    }
}

/// Appends the varint encoding of `value`. A negative value encodes in full
/// five bytes: the encoder works on the bit pattern, never short-circuiting
/// on sign.
pub fn write_varint(out: &mut Vec<u8>, value: i32)
    ensures
        final(out)@ == old(out)@ + varint_enc(u32_of_i32(value)),
{
    let u = #[verifier::truncate] (value as u32);
    write_varint_u32(out, u);
}

/// The number of bytes `write_varint` emits for `value`, computed without
/// serializing.
pub fn varint_size(value: i32) -> (r: usize)
    ensures
        r == varint_enc(u32_of_i32(value)).len(),
        1 <= r <= 5,
{
    let mut v = #[verifier::truncate] (value as u32);
    let mut size: usize = 1;
    proof {
        lemma_pow128_values();
        lemma_varint_enc_len(v as nat, 5);
    }
    while v >= 128
        invariant
            size >= 1,
            varint_enc(u32_of_i32(value)).len() == size + varint_enc(v as nat).len() - 1,
            size + varint_enc(v as nat).len() <= 6,
        decreases v,
    {
        proof {
            assert(varint_enc(v as nat).len() == 1 + varint_enc((v / 128) as nat).len());
        }
        v = v / 128;
        size = size + 1;
    }
    proof {
        assert(varint_enc(v as nat).len() == 1);
    }
    size
}

/// Relies on `String::from_utf8_lossy`: the decoded text is a function of
/// the bytes alone, and bytes that are valid UTF-8 decode without loss to
/// exactly their characters.
#[verifier::external_body]
fn from_utf8_lossy(b: &[u8]) -> (r: String)
    ensures
        r@ == utf8_lossy(b@),
        valid_utf8(b@) ==> r@ == decode_utf8(b@),
{
    String::from_utf8_lossy(b).into_owned()
}

impl<'a> Reader<'a> {
    /// Reads exactly `n` raw bytes; fails with `Io` exactly when fewer are
    /// left.
    pub fn read_exact(&mut self, n: usize) -> (r: Result<Vec<u8>, CodecError>)
        requires
            old(self).wf(),
        ensures
            final(self).wf(),
            final(self).data == old(self).data,
            match r {
                Ok(b) => old(self).remaining().len() >= n && b@ == old(self).remaining().subrange(
                    0,
                    n as int,
                ) && final(self).pos == old(self).pos + n,
                Err(e) => e == CodecError::Io && old(self).remaining().len() < n && *final(self)
                    == *old(self),
            },
    {
        if n <= self.data.len() - self.pos {
            let s = slice_subrange(self.data, self.pos, self.pos + n);
            let v = slice_to_vec(s);
            self.pos = self.pos + n;
            proof {
                assert(v@ =~= old(self).remaining().subrange(0, n as int));
            }
            Ok(v)
        } else {
            Err(CodecError::Io)
        }
    }

    /// Reads a varint length, refuses one outside `0 ..= limit` with
    /// `LengthExceedsLimit`, then reads that many bytes. Nothing is
    /// consumed on failure.
    pub fn read_bytes(&mut self, limit: i32) -> (r: Result<Vec<u8>, CodecError>)
        requires
            old(self).wf(),
        ensures
            final(self).wf(),
            final(self).data == old(self).data,
            match r {
                Ok(b) => parse_bytes(old(self).remaining(), limit) matches Parsed::Val(v, n)
                    && b@ == v && final(self).pos == old(self).pos + n,
                Err(e) => parse_bytes(old(self).remaining(), limit) == Parsed::<Seq<u8>>::Fail(e)
                    && *final(self) == *old(self),
            },
    {
        let ghost s0 = self.remaining();
        let start = self.pos;
        let v21 = match self.read_varint() {
            Ok(v) => v,
            Err(e) => {
                self.pos = start;
                return Err(e);
            },
        };
        if v21.ans < 0 || v21.ans > limit {
            self.pos = start;
            return Err(CodecError::LengthExceedsLimit);
        }
        let len = v21.ans as usize;
        let ghost n0 = v21.size as nat;
        proof {
            assert(self.remaining() =~= s0.skip(n0 as int));
        }
        match self.read_exact(len) {
            Ok(b) => {
                proof {
                    assert(b@ =~= s0.subrange(n0 as int, n0 + len));
                }
                Ok(b)
            },
            Err(_) => {
                self.pos = start;
                Err(CodecError::Io)
            },
        }
    }

    /// Reads a length-prefixed UTF-8 string, decoding invalid sequences to
    /// replacement characters, and refuses a text of more than `limit`
    /// characters with `LengthExceedsLimit`. Nothing is consumed on
    /// failure.
    pub fn read_string(&mut self, limit: i32) -> (r: Result<String, CodecError>)
        requires
            old(self).wf(),
        ensures
            final(self).wf(),
            final(self).data == old(self).data,
            match r {
                Ok(st) => parse_string(old(self).remaining(), limit) matches Parsed::Val(v, n)
                    && st@ == v && final(self).pos == old(self).pos + n,
                Err(e) => parse_string(old(self).remaining(), limit) == Parsed::<
                    Seq<char>,
                >::Fail(e) && *final(self) == *old(self),
            },
            (r matches Ok(st) ==> (parse_bytes(old(self).remaining(), 0x7fffffff)
                matches Parsed::Val(b, n2) ==> (valid_utf8(b) ==> st@ == decode_utf8(b)))),
    {
        let start = self.pos;
        let b = match self.read_bytes(0x7fffffff) {
            Ok(b) => b,
            Err(e) => {
                return Err(e);
            },
        };
        let st = from_utf8_lossy(b.as_slice());
        if limit < 0 {
            self.pos = start;
            return Err(CodecError::LengthExceedsLimit);
        }
        let chars = st.as_str().unicode_len();
        if chars > limit as usize {
            self.pos = start;
            return Err(CodecError::LengthExceedsLimit);
        }
        Ok(st)
    }

    /// Reads one byte and interprets the value one as true, per the wire
    /// format's boolean encoding.
    pub fn read_bool(&mut self) -> (r: Result<bool, CodecError>)
        requires
            old(self).wf(),
        ensures
            final(self).wf(),
            final(self).data == old(self).data,
            match r {
                Ok(v) => parse_bool(old(self).remaining()) == Parsed::Val(v, 1nat) && final(self).pos == old(self).pos + 1,
                Err(e) => parse_bool(old(self).remaining()) == Parsed::<bool>::Fail(e),
            },
    {
        match self.read_u8() {
            Ok(b) => Ok(b == 1),
            Err(e) => Err(e),
        }
    }

    /// Reads a big-endian 16-bit integer.
    pub fn read_i16(&mut self) -> (r: Result<i16, CodecError>)
        requires
            old(self).wf(),
        ensures
            final(self).wf(),
            final(self).data == old(self).data,
            match r {
                Ok(v) => parse_i16(old(self).remaining()) == Parsed::Val(v, 2nat) && final(self).pos == old(self).pos + 2,
                Err(e) => parse_i16(old(self).remaining()) == Parsed::<i16>::Fail(e),
            },
    {
        let ghost s0 = self.remaining();
        let b0 = match self.read_u8() {
            Ok(b) => b,
            Err(e) => {
                return Err(e);
            },
        };
        proof {
            assert(self.remaining() =~= s0.skip(1));
        }
        let b1 = match self.read_u8() {
            Ok(b) => b,
            Err(e) => {
                return Err(e);
            },
        };
        let v = #[verifier::truncate] ((((b0 as u16) << 8) | (b1 as u16)) as i16);
        Ok(v)
    }

    /// Reads a big-endian 32-bit integer.
    pub fn read_i32_be(&mut self) -> (r: Result<i32, CodecError>)
        requires
            old(self).wf(),
        ensures
            final(self).wf(),
            final(self).data == old(self).data,
            match r {
                Ok(v) => parse_i32_be(old(self).remaining()) == Parsed::Val(v, 4nat) && final(self).pos == old(self).pos + 4,
                Err(e) => parse_i32_be(old(self).remaining()) == Parsed::<i32>::Fail(e),
            },
    {
        let ghost s0 = self.remaining();
        let b = match self.read_exact(4) {
            Ok(b) => b,
            Err(e) => {
                return Err(e);
            },
        };
        let v = #[verifier::truncate] ((((b[0] as u32) << 24) | ((b[1] as u32) << 16) | ((b[2]
            as u32) << 8) | (b[3] as u32)) as i32);
        proof {
            assert(b@[0] == s0[0] && b@[1] == s0[1] && b@[2] == s0[2] && b@[3] == s0[3]);
        }
        Ok(v)
    }

    /// Reads a big-endian 64-bit integer.
    pub fn read_i64(&mut self) -> (r: Result<i64, CodecError>)
        requires
            old(self).wf(),
        ensures
            final(self).wf(),
            final(self).data == old(self).data,
            match r {
                Ok(v) => parse_i64(old(self).remaining()) == Parsed::Val(v, 8nat) && final(self).pos == old(self).pos + 8,
                Err(e) => parse_i64(old(self).remaining()) == Parsed::<i64>::Fail(e),
            },
    {
        let ghost s0 = self.remaining();
        let b = match self.read_exact(8) {
            Ok(b) => b,
            Err(e) => {
                return Err(e);
            },
        };
        let v = #[verifier::truncate] ((((b[0] as u64) << 56) | ((b[1] as u64) << 48) | ((b[2]
            as u64) << 40) | ((b[3] as u64) << 32) | ((b[4] as u64) << 24) | ((b[5] as u64) << 16)
            | ((b[6] as u64) << 8) | (b[7] as u64)) as i64);
        proof {
            assert(forall|i: int| 0 <= i < 8 ==> b@[i] == s0[i]);
            assert(i64_of_be(s0) == i64_of_be(b@));
        }
        Ok(v)
    }
}

/// Appends one raw byte.
pub fn write_u8(out: &mut Vec<u8>, b: u8)
    ensures
        final(out)@ == old(out)@ + seq![b],
{
    out.push(b);
    proof {
        assert(out@ =~= old(out)@ + seq![b]);
    }
}

/// Appends the one-byte encoding of a boolean.
pub fn write_bool(out: &mut Vec<u8>, v: bool)
    ensures
        final(out)@ == old(out)@ + bool_enc(v),
{
    out.push(if v { 1 } else { 0 });
    proof {
        assert(out@ =~= old(out)@ + bool_enc(v));
    }
}

/// Appends a big-endian 16-bit integer.
pub fn write_i16(out: &mut Vec<u8>, v: i16)
    ensures
        final(out)@ == old(out)@ + be16_enc(v),
{
    let u = #[verifier::truncate] (v as u16);
    out.push(#[verifier::truncate] ((u >> 8) as u8));
    out.push(#[verifier::truncate] (u as u8));
    proof {
        assert(out@ =~= old(out)@ + be16_enc(v));
    }
}

/// Appends a big-endian 32-bit integer.
pub fn write_i32_be(out: &mut Vec<u8>, v: i32)
    ensures
        final(out)@ == old(out)@ + be32_enc(v),
{
    let u = #[verifier::truncate] (v as u32);
    out.push(#[verifier::truncate] ((u >> 24) as u8));
    out.push(#[verifier::truncate] ((u >> 16) as u8));
    out.push(#[verifier::truncate] ((u >> 8) as u8));
    out.push(#[verifier::truncate] (u as u8));
    proof {
        assert(out@ =~= old(out)@ + be32_enc(v));
    }
}

/// Appends a big-endian 64-bit integer.
pub fn write_i64(out: &mut Vec<u8>, v: i64)
    ensures
        final(out)@ == old(out)@ + be64_enc(v),
{
    let u = #[verifier::truncate] (v as u64);
    out.push(#[verifier::truncate] ((u >> 56) as u8));
    out.push(#[verifier::truncate] ((u >> 48) as u8));
    out.push(#[verifier::truncate] ((u >> 40) as u8));
    out.push(#[verifier::truncate] ((u >> 32) as u8));
    out.push(#[verifier::truncate] ((u >> 24) as u8));
    out.push(#[verifier::truncate] ((u >> 16) as u8));
    out.push(#[verifier::truncate] ((u >> 8) as u8));
    out.push(#[verifier::truncate] (u as u8));
    proof {
        assert(out@ =~= old(out)@ + be64_enc(v));
    }
}

/// Appends a varint length prefix followed by the bytes themselves.
pub fn write_bytes(out: &mut Vec<u8>, data: &[u8])
    requires
        data@.len() <= 0x7fffffff,
    ensures
        final(out)@ == old(out)@ + bytes_enc(data@),
{
    let len = data.len();
    write_varint(out, len as i32);
    proof {
        lemma_u32_of_nonneg(len as i32);
    }
    out.extend_from_slice(data);
    proof {
        assert(out@ =~= old(out)@ + bytes_enc(data@));
    }
}

/// Appends the length-prefixed UTF-8 encoding of a text.
pub fn write_string(out: &mut Vec<u8>, s: &str)
    requires
        encode_utf8(s@).len() <= 0x7fffffff,
    ensures
        final(out)@ == old(out)@ + string_enc(s@),
{
    let bytes = s.as_bytes();
    write_bytes(out, bytes);
}

/// A parsed varint's value is bounded by the bytes it occupied, so its
/// canonical re-encoding is never longer than what was read.
pub proof fn lemma_varint_parse_bound(s: Seq<u8>, k: nat, v: int, n: nat)
    requires
        k <= 5,
        varint_parse_k(s, k) == VarintParse::Value(v, n),
    ensures
        0 <= v < pow128(n),
        1 <= n <= k,
        n <= s.len(),
        varint_enc(u32_of_i32(i32_of_int(v))).len() <= n,
    decreases k,
{
    if k > 0 && s.len() > 0 && s[0] >= 128 {
        match varint_parse_k(s.skip(1), (k - 1) as nat) {
            VarintParse::Value(v2, n2) => {
                lemma_varint_parse_bound(s.skip(1), (k - 1) as nat, v2, n2);
                assert(pow128(n) == 128 * pow128((n - 1) as nat));
            },
            _ => {},
        }
    }
    lemma_pow128_values();
    let t = u32_of_i32(i32_of_int(v));
    assert(t == ((v as u32) as i32) as u32 as nat);
    let u = v as u32;
    assert((u as i32) as u32 == u) by (bit_vector);
    assert(t == (v as u32) as nat);
    if v < 0x100000000 {
        assert((v as u32) as nat == v as nat);
        lemma_varint_enc_len(t, n);
    } else {
        assert(n == 5) by {
            if n <= 4 {
                lemma_pow128_mono(n, 4);
                assert(v < pow128(4));
            }
        };
        assert(t < pow128(5));
        lemma_varint_enc_len(t, 5);
    }
}

/// Any 32-bit value's varint takes one to five bytes.
pub proof fn lemma_varint_enc_len5(v: nat)
    requires
        v < 0x100000000,
    ensures
        1 <= varint_enc(v).len() <= 5,
{
    lemma_pow128_values();
    lemma_varint_enc_len(v, 5);
}

/// A byte string whose first five bytes all carry the continuation bit is
/// no varint: the codec rejects it, however it continues.
pub proof fn lemma_varint_rejects_long(s: Seq<u8>, k: nat)
    requires
        k <= 5,
        s.len() >= k,
        forall|i: int| 0 <= i < k ==> s[i] >= 128,
    ensures
        varint_parse_k(s, k) == VarintParse::TooLong,
    decreases k,
{
    if k > 0 {
        assert(s[0] >= 128);
        assert(forall|i: int| 0 <= i < k - 1 ==> s.skip(1)[i] == s[i + 1] && s.skip(1)[i] >= 128);
        lemma_varint_rejects_long(s.skip(1), (k - 1) as nat);
    }
}

/// A varint parse looks only at the bytes it consumes: appending more input
/// changes nothing once a value was read.
pub proof fn lemma_varint_parse_prefix(s: Seq<u8>, rest: Seq<u8>, k: nat, v: int, n: nat)
    requires
        varint_parse_k(s, k) == VarintParse::Value(v, n),
    ensures
        varint_parse_k(s + rest, k) == VarintParse::Value(v, n),
    decreases k,
{
    assert((s + rest)[0] == s[0]);
    if k > 0 && s.len() > 0 && s[0] >= 128 {
        match varint_parse_k(s.skip(1), (k - 1) as nat) {
            VarintParse::Value(v2, n2) => {
                lemma_varint_parse_prefix(s.skip(1), rest, (k - 1) as nat, v2, n2);
                assert((s + rest).skip(1) =~= s.skip(1) + rest);
            },
            _ => {},
        }
    }
}

/// A text of `n` characters encodes to at most `4 * n` UTF-8 bytes.
pub proof fn lemma_encode_utf8_len(chars: Seq<char>)
    ensures
        encode_utf8(chars).len() <= 4 * chars.len(),
    decreases chars.len(),
{
    if chars.len() > 0 {
        lemma_encode_utf8_len(chars.drop_first());
    }
}

/// Writing a byte string and reading it back returns it, whatever follows
/// it, as long as the limit admits its length.
pub proof fn lemma_bytes_round_trip(b: Seq<u8>, rest: Seq<u8>, limit: i32)
    requires
        b.len() <= limit,
    ensures
        parse_bytes(bytes_enc(b) + rest, limit) == Parsed::Val(
            b,
            varint_enc(b.len()).len() + b.len(),
        ),
{
    lemma_pow128_values();
    lemma_varint_parse_enc(b.len(), b + rest, 5);
    lemma_varint_enc_len(b.len(), 5);
    let s = bytes_enc(b) + rest;
    let n = varint_enc(b.len()).len();
    assert(s =~= varint_enc(b.len()) + (b + rest));
    assert(varint_parse(s) == VarintParse::Value(b.len() as int, n));
    assert(i32_of_int(b.len() as int) as int == b.len());
    assert(s.subrange(n as int, (n + b.len()) as int) =~= b);
}

/// Reading back a big-endian 64-bit integer's encoding returns the value;
/// re-encoding eight bytes that decoded returns those bytes. This is what
/// makes an echoed ping payload leave byte-identically to how it arrived.
pub proof fn lemma_be64_round_trip(v: i64, s: Seq<u8>)
    requires
        s.len() >= 8,
    ensures
        i64_of_be(be64_enc(v)) == v,
        be64_enc(i64_of_be(s)) =~= s.subrange(0, 8),
{
    let u = v as u64;
    assert(i64_of_be(be64_enc(v)) == v) by {
        let b0 = ((v as u64) >> 56) as u8;
        let b1 = ((v as u64) >> 48) as u8;
        let b2 = ((v as u64) >> 40) as u8;
        let b3 = ((v as u64) >> 32) as u8;
        let b4 = ((v as u64) >> 24) as u8;
        let b5 = ((v as u64) >> 16) as u8;
        let b6 = ((v as u64) >> 8) as u8;
        let b7 = (v as u64) as u8;
        assert((((b0 as u64) << 56) | ((b1 as u64) << 48) | ((b2 as u64) << 40) | ((b3
            as u64) << 32) | ((b4 as u64) << 24) | ((b5 as u64) << 16) | ((b6 as u64) << 8) | (b7
            as u64)) as i64 == v) by (bit_vector)
            requires
                b0 == ((v as u64) >> 56) as u8,
                b1 == ((v as u64) >> 48) as u8,
                b2 == ((v as u64) >> 40) as u8,
                b3 == ((v as u64) >> 32) as u8,
                b4 == ((v as u64) >> 24) as u8,
                b5 == ((v as u64) >> 16) as u8,
                b6 == ((v as u64) >> 8) as u8,
                b7 == (v as u64) as u8,
        ;
    };
    let w = i64_of_be(s);
    let c0 = s[0];
    let c1 = s[1];
    let c2 = s[2];
    let c3 = s[3];
    let c4 = s[4];
    let c5 = s[5];
    let c6 = s[6];
    let c7 = s[7];
    assert(((w as u64) >> 56) as u8 == c0 && ((w as u64) >> 48) as u8 == c1 && ((w as u64) >> 40)
        as u8 == c2 && ((w as u64) >> 32) as u8 == c3 && ((w as u64) >> 24) as u8 == c4 && ((w
        as u64) >> 16) as u8 == c5 && ((w as u64) >> 8) as u8 == c6 && (w as u64) as u8 == c7)
        by (bit_vector)
        requires
            w == (((c0 as u64) << 56) | ((c1 as u64) << 48) | ((c2 as u64) << 40) | ((c3
                as u64) << 32) | ((c4 as u64) << 24) | ((c5 as u64) << 16) | ((c6 as u64) << 8) | (
            c7 as u64)) as i64,
    ;
    assert(be64_enc(w) =~= s.subrange(0, 8));
}

} // verus!
