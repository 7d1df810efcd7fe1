//! The packet codec: frames a byte stream as length-prefixed packets,
//! transparently handling the protocol switch from plain frames to
//! compression-enveloped frames, and defers decompression so the pump can
//! forward compressed frames it never inspects.

use vstd::prelude::*;

use crate::packets::{Packet, PacketData};
use crate::wire::{
    i32_of_int, lemma_pow128_values, lemma_u32_of_nonneg, lemma_varint_parse_bound,
    lemma_varint_parse_enc, pow128,
    parse_varint, u32_of_i32, varint_enc, varint_parse, varint_size, write_varint, Parsed, Reader,
    VarintParse,
};
use crate::CodecError;

verus! {

/// The protocol's hard ceiling on a frame's declared length: the length
/// prefix is a varint of at most 21 bits.
pub const MAX_FRAME_LEN: i32 = 2097151;

/// What `zlib_deflate_bytes` returns for an input: the zlib stream flate2's
/// encoder produces, a function of the input alone.
pub uninterp spec fn zlib_deflate(b: Seq<u8>) -> Seq<u8>;

/// What `zlib_inflate_bytes` returns for an input: the decompression of a
/// zlib stream, or nothing when the bytes are not one.
pub uninterp spec fn zlib_inflate(b: Seq<u8>) -> Option<Seq<u8>>;

/// Relies on flate2's `ZlibEncoder`: the compressed form of the input is a
/// function of the input alone, and flate2's own decoder recovers the input
/// from it. Writing into a `Vec`-backed encoder cannot fail.
#[verifier::external_body]
fn zlib_deflate_bytes(data: &[u8]) -> (r: Vec<u8>)
    ensures
        r@ == zlib_deflate(data@),
        zlib_inflate(r@) == Some(data@),
{
    let mut enc = flate2::write::ZlibEncoder::new(Vec::new(), flate2::Compression::default());
    std::io::Write::write_all(&mut enc, data).expect("writing into a Vec cannot fail");
    enc.finish().expect("flushing into a Vec cannot fail")
}

/// Relies on flate2's `ZlibDecoder`: whether bytes decompress, and to what,
/// is a function of the bytes alone.
#[verifier::external_body]
fn zlib_inflate_bytes(data: &[u8]) -> (r: Result<Vec<u8>, CodecError>)
    ensures
        match r {
            Ok(v) => zlib_inflate(data@) == Some(v@),
            Err(e) => e == CodecError::BadCompressedData && zlib_inflate(data@) is None,
        },
{
    let mut dec = flate2::read::ZlibDecoder::new(data);
    let mut out = Vec::new();
    match std::io::Read::read_to_end(&mut dec, &mut out) {
        Ok(_) => Ok(out),
        Err(_) => Err(CodecError::BadCompressedData),
    }
}

/// One frame of the stream, in the least-decompressed form that has served
/// the callers so far.
pub enum MaybeCompressed {
    /// A frame read without a compression envelope: id and payload known.
    Plain { packet_id: i32, data: Vec<u8> },
    /// A compression-enveloped frame nobody has inspected: only the
    /// sender's claimed uncompressed size is known.
    Compressed { full_size: i32, compressed: Vec<u8> },
    /// A compressed frame whose body has been decompressed on demand; the
    /// original compressed bytes are kept for pass-through writing, and the
    /// body is kept whole because its id varint need not be canonical.
    Decompressed { packet_id: i32, body: Vec<u8>, compressed: Vec<u8> },
}

/// The mathematical mirror of `MaybeCompressed`.
pub enum FrameView {
    Plain { packet_id: i32, data: Seq<u8> },
    Compressed { full_size: i32, compressed: Seq<u8> },
    Decompressed { packet_id: i32, body: Seq<u8>, compressed: Seq<u8> },
}

impl View for MaybeCompressed {
    type V = FrameView;

    open spec fn view(&self) -> FrameView {
        match self {
            MaybeCompressed::Plain { packet_id, data } => FrameView::Plain {
                packet_id: *packet_id,
                data: data@,
            },
            MaybeCompressed::Compressed { full_size, compressed } => FrameView::Compressed {
                full_size: *full_size,
                compressed: compressed@,
            },
            MaybeCompressed::Decompressed { packet_id, body, compressed } => {
                FrameView::Decompressed { packet_id: *packet_id, body: body@, compressed: compressed@ }
            },
        }
    }
}

/// The packet id at the front of an uncompressed frame body.
pub open spec fn body_id(body: Seq<u8>) -> Result<i32, CodecError> {
    match parse_varint(body) {
        Parsed::Val((id, _), _) => if id < 0 {
            Err(CodecError::InvalidFieldValue)
        } else {
            Ok(id)
        },
        Parsed::Fail(e) => Err(e),
    }
}

/// The uncompressed body of a frame: the packet id varint followed by the
/// payload, or nothing when the compressed bytes do not decompress.
pub open spec fn frame_body(f: FrameView) -> Option<Seq<u8>> {
    match f {
        FrameView::Plain { packet_id, data } => Some(varint_enc(u32_of_i32(packet_id)) + data),
        FrameView::Decompressed { body, .. } => Some(body),
        FrameView::Compressed { compressed, .. } => zlib_inflate(compressed),
    }
}

/// The invariant every frame the codec hands out or accepts satisfies: the
/// id is non-negative, sizes respect the frame-length ceiling, and a
/// decompressed frame's kept compressed bytes really decompress to its
/// body, whose leading varint is its cached id.
pub open spec fn frame_wf(f: FrameView) -> bool {
    match f {
        FrameView::Plain { packet_id, data } => 0 <= packet_id && varint_enc(u32_of_i32(
            packet_id,
        )).len() + data.len() <= MAX_FRAME_LEN,
        FrameView::Compressed { full_size, compressed } => 0 < full_size && compressed.len()
            <= MAX_FRAME_LEN,
        FrameView::Decompressed { packet_id, body, compressed } => body.len() <= MAX_FRAME_LEN
            && compressed.len() <= MAX_FRAME_LEN && zlib_inflate(compressed) == Some(body)
            && body_id(body) == Ok::<i32, CodecError>(packet_id),
    }
}

/// Shifts a parse's consumed count by the `k` bytes a caller already took.
pub open spec fn shift_parsed<T>(p: Parsed<T>, k: nat) -> Parsed<T> {
    match p {
        Parsed::Val(v, n) => Parsed::Val(v, n + k),
        Parsed::Fail(e) => Parsed::Fail(e),
    }
}

/// The parse of a frame body of declared length `len`: a packet id varint,
/// then the rest of the `len` bytes as the payload.
pub open spec fn parse_frame_fields(s: Seq<u8>, len: int) -> Parsed<FrameView> {
    match parse_varint(s) {
        Parsed::Fail(e) => Parsed::Fail(e),
        Parsed::Val((id, _), n) => if id < 0 {
            Parsed::Fail(CodecError::InvalidFieldValue)
        } else if len < n {
            Parsed::Fail(CodecError::LengthExceedsLimit)
        } else if s.len() < len {
            Parsed::Fail(CodecError::Io)
        } else {
            Parsed::Val(
                FrameView::Plain { packet_id: id, data: s.subrange(n as int, len) },
                len as nat,
            )
        },
    }
}

/// The parse of one frame from the front of `s`: a total-length varint,
/// then either a bare body (no compression negotiated) or the compression
/// envelope with its uncompressed-size varint.
pub open spec fn parse_frame(s: Seq<u8>, compression: Option<i32>) -> Parsed<FrameView> {
    match parse_varint(s) {
        Parsed::Fail(e) => Parsed::Fail(e),
        Parsed::Val((total, _), n1) => if total < 1 || total > MAX_FRAME_LEN {
            Parsed::Fail(CodecError::LengthExceedsLimit)
        } else {
            match compression {
                None => shift_parsed(parse_frame_fields(s.skip(n1 as int), total as int), n1),
                Some(_) => match parse_varint(s.skip(n1 as int)) {
                    Parsed::Fail(e) => Parsed::Fail(e),
                    Parsed::Val((data_len, _), n2) => if total < n2 || data_len < 0 {
                        Parsed::Fail(CodecError::LengthExceedsLimit)
                    } else if data_len == 0 {
                        shift_parsed(
                            parse_frame_fields(s.skip((n1 + n2) as int), total - n2),
                            n1 + n2,
                        )
                    } else if s.len() < n1 + n2 + (total - n2) {
                        Parsed::Fail(CodecError::Io)
                    } else {
                        Parsed::Val(
                            FrameView::Compressed {
                                full_size: data_len,
                                compressed: s.subrange(
                                    (n1 + n2) as int,
                                    (n1 + n2) as int + (total - n2),
                                ),
                            },
                            (n1 + total) as nat,
                        )
                    },
                },
            }
        },
    }
}

/// Reads a frame body of declared length `len`: the id varint, then the
/// payload.
fn read_frame_fields<'x>(r: &mut Reader<'x>, len: i32) -> (res: Result<
    MaybeCompressed,
    CodecError,
>)
    requires
        old(r).wf(),
        0 <= len <= MAX_FRAME_LEN,
    ensures
        final(r).wf(),
        final(r).data == old(r).data,
        match res {
            Ok(f) => parse_frame_fields(old(r).remaining(), len as int) matches Parsed::Val(v, n)
                && f@ == v && frame_wf(f@) && final(r).pos == old(r).pos + n,
            Err(e) => parse_frame_fields(old(r).remaining(), len as int) == Parsed::<
                FrameView,
            >::Fail(e),
        },
{
    let ghost s0 = old(r).remaining();
    let id_v = match r.read_varint() {
        Ok(v) => v,
        Err(e) => {
            return Err(e);
        },
    };
    if id_v.ans < 0 {
        return Err(CodecError::InvalidFieldValue);
    }
    if len < id_v.size as i32 {
        return Err(CodecError::LengthExceedsLimit);
    }
    let payload_len = (len - id_v.size as i32) as usize;
    proof {
        assert(r.remaining() =~= s0.skip(id_v.size as int));
    }
    match r.read_exact(payload_len) {
        Ok(data) => {
            proof {
                assert(data@ =~= s0.subrange(id_v.size as int, len as int));
                match varint_parse(s0) {
                    VarintParse::Value(v, n) => {
                        lemma_varint_parse_bound(s0, 5, v, n);
                    },
                    _ => {},
                }
            }
            Ok(MaybeCompressed::Plain { packet_id: id_v.ans, data })
        },
        Err(_) => Err(CodecError::Io),
    }
}

/// Reads one frame from the cursor, honoring the link's compression
/// setting. A compression-enveloped frame with a non-zero declared size is
/// returned still compressed; nothing decompresses it here.
pub fn read_packet<'x>(r: &mut Reader<'x>, compression: Option<i32>) -> (res: Result<
    MaybeCompressed,
    CodecError,
>)
    requires
        old(r).wf(),
    ensures
        final(r).wf(),
        final(r).data == old(r).data,
        match res {
            Ok(f) => parse_frame(old(r).remaining(), compression) matches Parsed::Val(v, n) && f@
                == v && frame_wf(f@) && final(r).pos == old(r).pos + n,
            Err(e) => parse_frame(old(r).remaining(), compression) == Parsed::<FrameView>::Fail(
                e,
            ),
        },
{
    let ghost s0 = old(r).remaining();
    let total_v = match r.read_varint() {
        Ok(v) => v,
        Err(e) => {
            return Err(e);
        },
    };
    if total_v.ans < 1 || total_v.ans > MAX_FRAME_LEN {
        return Err(CodecError::LengthExceedsLimit);
    }
    let ghost n1 = total_v.size as nat;
    proof {
        assert(r.remaining() =~= s0.skip(n1 as int));
    }
    match compression {
        None => {
            match read_frame_fields(r, total_v.ans) {
                Ok(f) => Ok(f),
                Err(e) => Err(e),
            }
        },
        Some(_) => {
            let dl_v = match r.read_varint() {
                Ok(v) => v,
                Err(e) => {
                    return Err(e);
                },
            };
            if total_v.ans < dl_v.size as i32 || dl_v.ans < 0 {
                return Err(CodecError::LengthExceedsLimit);
            }
            let ghost n2 = dl_v.size as nat;
            proof {
                assert(r.remaining() =~= s0.skip((n1 + n2) as int));
            }
            if dl_v.ans == 0 {
                match read_frame_fields(r, total_v.ans - dl_v.size as i32) {
                    Ok(f) => Ok(f),
                    Err(e) => Err(e),
                }
            } else {
                let rest = (total_v.ans - dl_v.size as i32) as usize;
                match r.read_exact(rest) {
                    Ok(compressed) => {
                        proof {
                            assert(compressed@ =~= s0.subrange(
                                (n1 + n2) as int,
                                (n1 + n2) as int + (total_v.ans - n2),
                            ));
                        }
                        Ok(MaybeCompressed::Compressed { full_size: dl_v.ans, compressed })
                    },
                    Err(_) => Err(CodecError::Io),
                }
            }
        },
    }
}

/// The framing of an uncompressed body on a compression-enabled link when
/// the body stays below the threshold: total length, the zero marker, then
/// the body itself.
pub open spec fn marker0_bytes(body: Seq<u8>) -> Seq<u8> {
    varint_enc((body.len() + 1) as nat) + seq![0u8] + body
}

/// The framing of a body on a link without compression: total length, then
/// the body.
pub open spec fn plain_bytes(body: Seq<u8>) -> Seq<u8> {
    varint_enc(body.len()) + body
}

/// The framing of already-compressed bytes whose uncompressed size is
/// `full_size`: total length, the size, then the compressed bytes
/// untouched.
pub open spec fn compressed_bytes(full_size: nat, compressed: Seq<u8>) -> Seq<u8> {
    varint_enc((varint_enc(full_size).len() + compressed.len()) as nat) + varint_enc(full_size)
        + compressed
}

/// The bytes `MaybeCompressed::write` emits for a frame under a link
/// setting, or the error when they cannot be produced. The four fast paths
/// never touch zlib; only a compressed frame bound for an output mode that
/// needs its body decompresses, and a plain body at or above the threshold
/// compresses.
pub open spec fn frame_write_bytes(f: FrameView, t: Option<i32>) -> Result<Seq<u8>, CodecError> {
    match f {
        FrameView::Plain { packet_id, data } => {
            let body = varint_enc(u32_of_i32(packet_id)) + data;
            match t {
                None => Ok(plain_bytes(body)),
                Some(tt) => if body.len() < tt {
                    Ok(marker0_bytes(body))
                } else {
                    let comp = zlib_deflate(body);
                    if varint_enc(body.len()).len() + comp.len() > 0x7fffffff {
                        Err(CodecError::LengthExceedsLimit)
                    } else {
                        Ok(compressed_bytes(body.len(), comp))
                    }
                },
            }
        },
        FrameView::Decompressed { body, compressed, .. } => match t {
            None => Ok(plain_bytes(body)),
            Some(tt) => if body.len() < tt {
                Ok(marker0_bytes(body))
            } else {
                Ok(compressed_bytes(body.len(), compressed))
            },
        },
        FrameView::Compressed { full_size, compressed } => match t {
            Some(tt) => if tt <= full_size {
                Ok(compressed_bytes(u32_of_i32(full_size), compressed))
            } else {
                match zlib_inflate(compressed) {
                    None => Err(CodecError::BadCompressedData),
                    Some(body) => if body.len() + 1 > MAX_FRAME_LEN {
                        Err(CodecError::LengthExceedsLimit)
                    } else {
                        Ok(marker0_bytes(body))
                    },
                }
            },
            None => match zlib_inflate(compressed) {
                None => Err(CodecError::BadCompressedData),
                Some(body) => if body.len() > MAX_FRAME_LEN {
                    Err(CodecError::LengthExceedsLimit)
                } else {
                    Ok(plain_bytes(body))
                },
            },
        },
    }
}

/// The packet id a frame carries, as far as it is known without
/// decompressing.
pub open spec fn spec_cheap_id(f: FrameView) -> Option<i32> {
    match f {
        FrameView::Plain { packet_id, .. } => Some(packet_id),
        FrameView::Decompressed { packet_id, .. } => Some(packet_id),
        FrameView::Compressed { .. } => None,
    }
}

/// The packet id a frame carries, decompressing if that is what it takes:
/// the leading varint of the body, when there is one within the frame-size
/// ceiling.
pub open spec fn frame_id_result(f: FrameView) -> Result<i32, CodecError> {
    match frame_body(f) {
        None => Err(CodecError::BadCompressedData),
        Some(body) => if body.len() > MAX_FRAME_LEN {
            Err(CodecError::LengthExceedsLimit)
        } else {
            body_id(body)
        },
    }
}

/// What decoding a frame as packet `T` yields: the frame's id must be
/// `T`'s, and `T`'s fields must consume the body exactly.
pub open spec fn frame_decode<T: Packet>(f: FrameView) -> Result<T::V, CodecError> {
    match frame_body(f) {
        None => Err(CodecError::BadCompressedData),
        Some(body) => match parse_varint(body) {
            Parsed::Fail(e) => Err(e),
            Parsed::Val((id, _), n) => if id != T::spec_id() {
                Err(CodecError::WrongPacketId)
            } else {
                match T::parse(body.skip(n as int)) {
                    Parsed::Fail(e) => Err(e),
                    Parsed::Val(v, m) => if n + m == body.len() {
                        Ok(v)
                    } else {
                        Err(CodecError::TrailingBytes)
                    },
                }
            },
        },
    }
}

impl MaybeCompressed {
    /// The packet id, when the frame already knows it: the pump's fast
    /// path, which never decompresses.
    pub fn cheap_id(&self) -> (r: Option<i32>)
        ensures
            r == spec_cheap_id(self@),
    {
        match self {
            MaybeCompressed::Plain { packet_id, .. } => Some(*packet_id),
            MaybeCompressed::Decompressed { packet_id, .. } => Some(*packet_id),
            MaybeCompressed::Compressed { .. } => None,
        }
    }

    /// Decompresses a compressed frame just far enough to know its id,
    /// promoting it to `Decompressed`; any other frame is left as it is.
    pub fn partially_decompress(&mut self) -> (r: Result<(), CodecError>)
        requires
            frame_wf(old(self)@),
        ensures
            match r {
                Ok(()) => {
                    &&& frame_wf(final(self)@)
                    &&& frame_body(final(self)@) == frame_body(old(self)@)
                    &&& spec_cheap_id(final(self)@) matches Some(id) && frame_id_result(
                        old(self)@,
                    ) == Ok::<i32, CodecError>(id)
                    &&& (old(self)@ matches FrameView::Compressed { compressed, .. } ==> final(self)@ matches FrameView::Decompressed { compressed: c2, .. } && c2 == compressed)
                    &&& !(old(self)@ is Compressed) ==> *final(self) == *old(self)
                },
                Err(e) => frame_id_result(old(self)@) == Err::<i32, CodecError>(e) && *final(self)
                    == *old(self),
            },
    {
        match self {
            MaybeCompressed::Compressed { full_size, compressed } => {
                let body = match zlib_inflate_bytes(compressed.as_slice()) {
                    Ok(b) => b,
                    Err(e) => {
                        return Err(e);
                    },
                };
                if body.len() > MAX_FRAME_LEN as usize {
                    return Err(CodecError::LengthExceedsLimit);
                }
                let mut rd = Reader::new(body.as_slice());
                let id_v = match rd.read_varint() {
                    Ok(v) => v,
                    Err(e) => {
                        return Err(e);
                    },
                };
                if id_v.ans < 0 {
                    return Err(CodecError::InvalidFieldValue);
                }
                let mut compressed_taken: Vec<u8> = Vec::new();
                core::mem::swap(&mut compressed_taken, compressed);
                *self = MaybeCompressed::Decompressed {
                    packet_id: id_v.ans,
                    body,
                    compressed: compressed_taken,
                };
                Ok(())
            },
            _ => {
                proof {
                    let b = frame_body(old(self)@).unwrap();
                    match old(self)@ {
                        FrameView::Plain { packet_id, data } => {
                            crate::wire::lemma_varint_round_trip(packet_id, data);
                            lemma_u32_of_nonneg(packet_id);
                        },
                        _ => {},
                    }
                }
                Ok(())
            },
        }
    }

    /// The packet id, decompressing on demand (and caching the result) for
    /// compressed frames.
    pub fn id(&mut self) -> (r: Result<i32, CodecError>)
        requires
            frame_wf(old(self)@),
        ensures
            match r {
                Ok(id) => {
                    &&& frame_id_result(old(self)@) == Ok::<i32, CodecError>(id)
                    &&& frame_wf(final(self)@)
                    &&& frame_body(final(self)@) == frame_body(old(self)@)
                    &&& spec_cheap_id(final(self)@) == Some(id)
                    &&& (old(self)@ matches FrameView::Compressed { compressed, .. } ==> final(self)@ matches FrameView::Decompressed { compressed: c2, .. } && c2 == compressed)
                    &&& !(old(self)@ is Compressed) ==> *final(self) == *old(self)
                },
                Err(e) => frame_id_result(old(self)@) == Err::<i32, CodecError>(e) && *final(self)
                    == *old(self),
            },
    {
        match self.partially_decompress() {
            Ok(()) => {},
            Err(e) => {
                return Err(e);
            },
        }
        match self {
            MaybeCompressed::Plain { packet_id, .. } => Ok(*packet_id),
            MaybeCompressed::Decompressed { packet_id, .. } => Ok(*packet_id),
            MaybeCompressed::Compressed { .. } => {
                proof {
                    assert(false);
                }
                Err(CodecError::BadCompressedData)
            },
        }
    }

    /// Decodes the frame as packet `T`: the id must be `T`'s, and the body
    /// must be consumed exactly.
    pub fn decode<T: Packet>(self) -> (r: Result<T, CodecError>)
        requires
            frame_wf(self@),
        ensures
            match r {
                Ok(p) => frame_decode::<T>(self@) matches Ok(v) && p@ == v && p.wf(),
                Err(e) => frame_decode::<T>(self@) == Err::<T::V, CodecError>(e),
            },
    {
        let ghost f0 = self@;
        let body: Vec<u8> = match self {
            MaybeCompressed::Plain { packet_id, data } => {
                let mut body: Vec<u8> = Vec::new();
                write_varint(&mut body, packet_id);
                let mut data2 = data;
                body.append(&mut data2);
                proof {
                    assert(body@ =~= frame_body(f0).unwrap());
                }
                body
            },
            MaybeCompressed::Decompressed { body, .. } => body,
            MaybeCompressed::Compressed { compressed, .. } => {
                match zlib_inflate_bytes(compressed.as_slice()) {
                    Ok(b) => b,
                    Err(e) => {
                        return Err(e);
                    },
                }
            },
        };
        let mut rd = Reader::new(body.as_slice());
        let id_v = match rd.read_varint() {
            Ok(v) => v,
            Err(e) => {
                return Err(e);
            },
        };
        if id_v.ans != T::id() {
            return Err(CodecError::WrongPacketId);
        }
        let ghost n = id_v.size as nat;
        proof {
            assert(rd.remaining() =~= body@.skip(n as int));
        }
        let p = match T::read(&mut rd) {
            Ok(p) => p,
            Err(e) => {
                return Err(e);
            },
        };
        if rd.remaining_len() != 0 {
            return Err(CodecError::TrailingBytes);
        }
        Ok(p)
    }

    /// Serializes the frame honoring the link's compression setting,
    /// emitting exactly `frame_write_bytes`. Nothing is written when that
    /// fails.
    #[verifier::rlimit(60)]
    pub fn write(&self, compression_threshold: Option<i32>, out: &mut Vec<u8>) -> (r: Result<
        (),
        CodecError,
    >)
        requires
            frame_wf(self@),
        ensures
            match r {
                Ok(()) => frame_write_bytes(self@, compression_threshold) matches Ok(w)
                    && final(out)@ == old(out)@ + w,
                Err(e) => frame_write_bytes(self@, compression_threshold) == Err::<
                    Seq<u8>,
                    CodecError,
                >(e) && final(out)@ == old(out)@,
            },
    {
        match self {
            MaybeCompressed::Plain { packet_id, data } => {
                let id_size = varint_size(*packet_id);
                let size = id_size + data.len();
                proof {
                    lemma_u32_of_nonneg(*packet_id);
                }
                match compression_threshold {
                    None => {
                        write_varint(out, size as i32);
                        write_varint(out, *packet_id);
                        out.extend_from_slice(data.as_slice());
                        proof {
                            lemma_u32_of_nonneg(size as i32);
                            assert(out@ =~= old(out)@ + plain_bytes(
                                varint_enc(u32_of_i32(*packet_id)) + data@,
                            ));
                        }
                        Ok(())
                    },
                    Some(tt) => {
                        if (size as i32) < tt {
                            write_varint(out, size as i32 + 1);
                            out.push(0);
                            write_varint(out, *packet_id);
                            out.extend_from_slice(data.as_slice());
                            proof {
                                lemma_u32_of_nonneg((size + 1) as i32);
                                assert(out@ =~= old(out)@ + marker0_bytes(
                                    varint_enc(u32_of_i32(*packet_id)) + data@,
                                ));
                            }
                            Ok(())
                        } else {
                            let mut body: Vec<u8> = Vec::new();
                            write_varint(&mut body, *packet_id);
                            body.extend_from_slice(data.as_slice());
                            proof {
                                assert(body@ =~= varint_enc(u32_of_i32(*packet_id)) + data@);
                                lemma_u32_of_nonneg(size as i32);
                            }
                            let comp = zlib_deflate_bytes(body.as_slice());
                            let size_size = varint_size(size as i32);
                            if comp.len() > 0x7fffffff - size_size {
                                return Err(CodecError::LengthExceedsLimit);
                            }
                            let total = size_size + comp.len();
                            write_varint(out, total as i32);
                            write_varint(out, size as i32);
                            out.extend_from_slice(comp.as_slice());
                            proof {
                                lemma_u32_of_nonneg(total as i32);
                                assert(out@ =~= old(out)@ + compressed_bytes(
                                    (varint_enc(u32_of_i32(*packet_id)) + data@).len(),
                                    comp@,
                                ));
                            }
                            Ok(())
                        }
                    },
                }
            },
            MaybeCompressed::Decompressed { body, compressed, .. } => {
                let size = body.len();
                match compression_threshold {
                    None => {
                        write_varint(out, size as i32);
                        out.extend_from_slice(body.as_slice());
                        proof {
                            lemma_u32_of_nonneg(size as i32);
                            assert(out@ =~= old(out)@ + plain_bytes(body@));
                        }
                        Ok(())
                    },
                    Some(tt) => {
                        if (size as i32) < tt {
                            write_varint(out, size as i32 + 1);
                            out.push(0);
                            out.extend_from_slice(body.as_slice());
                            proof {
                                lemma_u32_of_nonneg((size + 1) as i32);
                                assert(out@ =~= old(out)@ + marker0_bytes(body@));
                            }
                            Ok(())
                        } else {
                            let size_size = varint_size(size as i32);
                            let total = size_size + compressed.len();
                            write_varint(out, total as i32);
                            write_varint(out, size as i32);
                            out.extend_from_slice(compressed.as_slice());
                            proof {
                                lemma_u32_of_nonneg(total as i32);
                                lemma_u32_of_nonneg(size as i32);
                                assert(out@ =~= old(out)@ + compressed_bytes(
                                    body@.len(),
                                    compressed@,
                                ));
                            }
                            Ok(())
                        }
                    },
                }
            },
            MaybeCompressed::Compressed { full_size, compressed } => {
                match compression_threshold {
                    Some(tt) if tt <= *full_size => {
                        let size_size = varint_size(*full_size);
                        let total = size_size + compressed.len();
                        write_varint(out, total as i32);
                        write_varint(out, *full_size);
                        out.extend_from_slice(compressed.as_slice());
                        proof {
                            lemma_u32_of_nonneg(total as i32);
                            assert(out@ =~= old(out)@ + compressed_bytes(
                                u32_of_i32(*full_size),
                                compressed@,
                            ));
                        }
                        Ok(())
                    },
                    Some(_) => {
                        let body = match zlib_inflate_bytes(compressed.as_slice()) {
                            Ok(b) => b,
                            Err(e) => {
                                return Err(e);
                            },
                        };
                        if body.len() >= MAX_FRAME_LEN as usize {
                            return Err(CodecError::LengthExceedsLimit);
                        }
                        write_varint(out, body.len() as i32 + 1);
                        out.push(0);
                        out.extend_from_slice(body.as_slice());
                        proof {
                            lemma_u32_of_nonneg((body@.len() + 1) as i32);
                            assert(out@ =~= old(out)@ + marker0_bytes(body@));
                        }
                        Ok(())
                    },
                    None => {
                        let body = match zlib_inflate_bytes(compressed.as_slice()) {
                            Ok(b) => b,
                            Err(e) => {
                                return Err(e);
                            },
                        };
                        if body.len() > MAX_FRAME_LEN as usize {
                            return Err(CodecError::LengthExceedsLimit);
                        }
                        write_varint(out, body.len() as i32);
                        out.extend_from_slice(body.as_slice());
                        proof {
                            lemma_u32_of_nonneg(body@.len() as i32);
                            assert(out@ =~= old(out)@ + plain_bytes(body@));
                        }
                        Ok(())
                    },
                }
            },
        }
    }
}

/// Frames a typed packet for the wire: its id varint and fields become the
/// body, which travels bare, below-threshold marked, or compressed, exactly
/// as a `Plain` frame of the same body would.
pub fn write_packet<T: Packet>(
    out: &mut Vec<u8>,
    compression: Option<i32>,
    packet: &T,
) -> (r: Result<(), CodecError>)
    requires
        packet.wf(),
        0 <= T::spec_id(),
        varint_enc(u32_of_i32(T::spec_id())).len() + packet.wire().len() <= MAX_FRAME_LEN,
    ensures
        match r {
            Ok(()) => frame_write_bytes(
                FrameView::Plain { packet_id: T::spec_id(), data: packet.wire() },
                compression,
            ) matches Ok(w) && final(out)@ == old(out)@ + w,
            Err(e) => frame_write_bytes(
                FrameView::Plain { packet_id: T::spec_id(), data: packet.wire() },
                compression,
            ) == Err::<Seq<u8>, CodecError>(e) && final(out)@ == old(out)@,
        },
{
    let mut data: Vec<u8> = Vec::new();
    packet.write(&mut data);
    let frame = MaybeCompressed::Plain { packet_id: T::id(), data };
    frame.write(compression, out)
}

/// The packet id a frame body starts with, when it has one.
pub open spec fn body_id_val(body: Seq<u8>) -> i32 {
    match parse_varint(body) {
        Parsed::Val((id, _), _) => id,
        Parsed::Fail(_) => 0,
    }
}

/// The length of the id varint at the front of a frame body.
pub open spec fn body_id_len(body: Seq<u8>) -> nat {
    match parse_varint(body) {
        Parsed::Val(_, n) => n,
        Parsed::Fail(_) => 0,
    }
}

/// What decoding an uncompressed frame body as packet `T` yields.
pub open spec fn decode_of_body<T: Packet>(body: Seq<u8>) -> Result<T::V, CodecError> {
    match parse_varint(body) {
        Parsed::Fail(e) => Err(e),
        Parsed::Val((id, _), n) => if id != T::spec_id() {
            Err(CodecError::WrongPacketId)
        } else {
            match T::parse(body.skip(n as int)) {
                Parsed::Fail(e) => Err(e),
                Parsed::Val(v, m) => if n + m == body.len() {
                    Ok(v)
                } else {
                    Err(CodecError::TrailingBytes)
                },
            }
        },
    }
}

/// Reading a body of declared length equal to its own length yields the
/// plain frame of its id and payload.
proof fn lemma_parse_fields_of_body(body: Seq<u8>, rest: Seq<u8>)
    requires
        body_id(body) is Ok,
        1 <= body.len() <= MAX_FRAME_LEN,
    ensures
        parse_frame_fields(body + rest, body.len() as int) == Parsed::Val(
            FrameView::Plain {
                packet_id: body_id_val(body),
                data: body.skip(body_id_len(body) as int),
            },
            body.len(),
        ),
        frame_wf(
            FrameView::Plain {
                packet_id: body_id_val(body),
                data: body.skip(body_id_len(body) as int),
            },
        ),
{
    match varint_parse(body) {
        VarintParse::Value(v, n) => {
            crate::wire::lemma_varint_parse_prefix(body, rest, 5, v, n);
            lemma_varint_parse_bound(body, 5, v, n);
            assert((body + rest).subrange(n as int, body.len() as int) =~= body.skip(n as int));
        },
        _ => {
            assert(false);
        },
    }
}

/// Decoding the plain frame a body was re-read as gives the same result as
/// decoding the body itself, even where the body's own id varint was not
/// canonical.
proof fn lemma_decode_of_reread_body<T: Packet>(body: Seq<u8>)
    requires
        body_id(body) is Ok,
    ensures
        frame_decode::<T>(
            FrameView::Plain {
                packet_id: body_id_val(body),
                data: body.skip(body_id_len(body) as int),
            },
        ) == decode_of_body::<T>(body),
{
    let id0 = body_id_val(body);
    let m0 = body_id_len(body);
    let data = body.skip(m0 as int);
    crate::wire::lemma_varint_round_trip(id0, data);
    let b2 = varint_enc(u32_of_i32(id0)) + data;
    let e0 = varint_enc(u32_of_i32(id0)).len();
    assert(b2.skip(e0 as int) =~= data);
    match varint_parse(body) {
        VarintParse::Value(v, n) => {
            lemma_varint_parse_bound(body, 5, v, n);
            assert(body.len() == m0 + data.len());
            assert(b2.len() == e0 + data.len());
        },
        _ => {
            assert(false);
        },
    }
}

/// Reading back the bare framing of a decodable body yields the plain frame
/// of that body.
proof fn lemma_rt_plain_none(body: Seq<u8>, rest: Seq<u8>)
    requires
        body_id(body) is Ok,
        1 <= body.len() <= MAX_FRAME_LEN,
    ensures
        parse_frame(plain_bytes(body) + rest, None) == Parsed::Val(
            FrameView::Plain {
                packet_id: body_id_val(body),
                data: body.skip(body_id_len(body) as int),
            },
            plain_bytes(body).len(),
        ),
{
    lemma_pow128_values();
    lemma_varint_parse_enc(body.len(), body + rest, 5);
    assert(plain_bytes(body) + rest =~= varint_enc(body.len()) + (body + rest));
    let n1 = varint_enc(body.len()).len();
    assert(i32_of_int(body.len() as int) as int == body.len() as int);
    assert((plain_bytes(body) + rest).skip(n1 as int) =~= body + rest);
    lemma_parse_fields_of_body(body, rest);
}

/// Reading back the below-threshold framing of a decodable body yields the
/// plain frame of that body.
proof fn lemma_rt_marker0(body: Seq<u8>, tt: i32, rest: Seq<u8>)
    requires
        body_id(body) is Ok,
        1 <= body.len(),
        body.len() + 1 <= MAX_FRAME_LEN,
    ensures
        parse_frame(marker0_bytes(body) + rest, Some(tt)) == Parsed::Val(
            FrameView::Plain {
                packet_id: body_id_val(body),
                data: body.skip(body_id_len(body) as int),
            },
            marker0_bytes(body).len(),
        ),
{
    lemma_pow128_values();
    let l1 = (body.len() + 1) as nat;
    lemma_varint_parse_enc(l1, seq![0u8] + body + rest, 5);
    let w = marker0_bytes(body);
    assert(w + rest =~= varint_enc(l1) + (seq![0u8] + body + rest));
    assert(i32_of_int(l1 as int) as int == l1 as int);
    let n1 = varint_enc(l1).len();
    assert((w + rest).skip(n1 as int) =~= seq![0u8] + (body + rest));
    assert((seq![0u8] + (body + rest))[0] == 0u8);
    assert(varint_parse(seq![0u8] + (body + rest)) == VarintParse::Value(0, 1));
    assert(i32_of_int(0) == 0) by {
        lemma_u32_of_nonneg(0);
    };
    assert((w + rest).skip((n1 + 1) as int) =~= body + rest);
    lemma_parse_fields_of_body(body, rest);
}

/// Reading back the compressed framing of compressed bytes with a declared
/// size at or above the threshold yields the same compressed frame,
/// untouched.
proof fn lemma_rt_compressed(full_size: i32, compressed: Seq<u8>, tt: i32, rest: Seq<u8>)
    requires
        0 < full_size,
        varint_enc(u32_of_i32(full_size)).len() + compressed.len() <= MAX_FRAME_LEN,
    ensures
        parse_frame(compressed_bytes(u32_of_i32(full_size), compressed) + rest, Some(tt))
            == Parsed::Val(
            FrameView::Compressed { full_size, compressed },
            compressed_bytes(u32_of_i32(full_size), compressed).len(),
        ),
{
    lemma_pow128_values();
    let fsn = u32_of_i32(full_size);
    let inner = varint_enc(fsn) + compressed;
    let total = inner.len();
    let w = compressed_bytes(fsn, compressed);
    assert(w =~= varint_enc(total) + inner);
    lemma_varint_parse_enc(total, inner + rest, 5);
    assert(w + rest =~= varint_enc(total) + (inner + rest));
    assert(i32_of_int(total as int) as int == total as int);
    crate::wire::lemma_varint_round_trip(full_size, compressed + rest);
    let n1 = varint_enc(total).len();
    let n2 = varint_enc(fsn).len();
    assert((w + rest).skip(n1 as int) =~= inner + rest);
    assert(inner + rest =~= varint_enc(fsn) + (compressed + rest));
    assert((w + rest).subrange((n1 + n2) as int, (n1 + n2) as int + (total - n2) as int)
        =~= compressed);
}

/// The round-trip statement: the written bytes parse back, consuming them
/// all, to a well-formed frame that decodes the same, and a fast-path
/// re-emission parses back to the very frame.
pub open spec fn round_trip_ok<T: Packet>(
    f: FrameView,
    t: Option<i32>,
    w: Seq<u8>,
    rest: Seq<u8>,
) -> bool {
    parse_frame(w + rest, t) matches Parsed::Val(f2, n) && n == w.len() && frame_wf(f2)
        && frame_decode::<T>(f2) == frame_decode::<T>(f) && (match (f, t) {
        (FrameView::Compressed { full_size, .. }, Some(tt)) => tt <= full_size ==> f2 == f,
        _ => true,
    })
}

/// Writing a frame under a compression setting and reading the bytes back
/// under the same setting yields a frame that decodes identically as any
/// packet, and a compressed frame re-emitted on the pass-through fast path
/// is read back as itself, byte-identically.
///
/// The hypotheses about `zlib_deflate` are what the writer's contract
/// establishes at each call; the ceiling hypotheses hold of every frame the
/// reader produced.
#[verifier::rlimit(80)]
pub proof fn lemma_frame_round_trip<T: Packet>(
    f: FrameView,
    t: Option<i32>,
    w: Seq<u8>,
    body: Seq<u8>,
    rest: Seq<u8>,
)
    requires
        frame_wf(f),
        frame_write_bytes(f, t) == Ok::<Seq<u8>, CodecError>(w),
        frame_body(f) == Some(body),
        1 <= body.len(),
        body_id(body) is Ok,
        (match f {
            FrameView::Compressed { full_size, compressed } => varint_enc(u32_of_i32(
                full_size,
            )).len() + compressed.len() <= MAX_FRAME_LEN,
            _ => true,
        }),
        (match (f, t) {
            (FrameView::Plain { .. }, Some(tt)) => body.len() >= tt ==> {
                &&& varint_enc(body.len()).len() + zlib_deflate(body).len() <= MAX_FRAME_LEN
                &&& zlib_inflate(zlib_deflate(body)) == Some(body)
            },
            _ => true,
        }),
        (t is Some && !(f is Compressed) ==> body.len() + 1 <= MAX_FRAME_LEN),
        (match (f, t) {
            (FrameView::Decompressed { compressed, .. }, Some(tt)) => body.len() >= tt
                ==> varint_enc(body.len()).len() + compressed.len() <= MAX_FRAME_LEN,
            _ => true,
        }),
    ensures
        round_trip_ok::<T>(f, t, w, rest),
{
    assert(frame_decode::<T>(f) == decode_of_body::<T>(body));
    match f {
        FrameView::Plain { packet_id, data } => {
            match t {
                None => {
                    lemma_rt_plain_none(body, rest);
                    lemma_decode_of_reread_body::<T>(body);
                    lemma_parse_fields_of_body(body, rest);
                },
                Some(tt) => {
                    if body.len() < tt {
                        lemma_rt_marker0(body, tt, rest);
                        lemma_decode_of_reread_body::<T>(body);
                        lemma_parse_fields_of_body(body, rest);
                    } else {
                        let comp = zlib_deflate(body);
                        let fs2 = i32_of_int(body.len() as int);
                        lemma_u32_of_nonneg(MAX_FRAME_LEN);
                        assert(i32_of_int(body.len() as int) as int == body.len() as int);
                        lemma_rt_compressed(fs2, comp, tt, rest);
                        assert(u32_of_i32(fs2) == body.len());
                        let f2 = FrameView::Compressed { full_size: fs2, compressed: comp };
                        assert(frame_body(f2) == Some(body));
                        assert(frame_decode::<T>(f2) == decode_of_body::<T>(body));
                    }
                },
            }
        },
        FrameView::Decompressed { packet_id, body: b2, compressed } => {
            match t {
                None => {
                    lemma_rt_plain_none(body, rest);
                    lemma_decode_of_reread_body::<T>(body);
                    lemma_parse_fields_of_body(body, rest);
                },
                Some(tt) => {
                    if body.len() < tt {
                        lemma_rt_marker0(body, tt, rest);
                        lemma_decode_of_reread_body::<T>(body);
                        lemma_parse_fields_of_body(body, rest);
                    } else {
                        let fs2 = i32_of_int(body.len() as int);
                        assert(i32_of_int(body.len() as int) as int == body.len() as int);
                        lemma_rt_compressed(fs2, compressed, tt, rest);
                        assert(u32_of_i32(fs2) == body.len());
                        let f2 = FrameView::Compressed { full_size: fs2, compressed };
                        assert(frame_body(f2) == Some(body));
                        assert(frame_decode::<T>(f2) == decode_of_body::<T>(body));
                    }
                },
            }
        },
        FrameView::Compressed { full_size, compressed } => {
            match t {
                Some(tt) => {
                    if tt <= full_size {
                        lemma_rt_compressed(full_size, compressed, tt, rest);
                    } else {
                        lemma_rt_marker0(body, tt, rest);
                        lemma_decode_of_reread_body::<T>(body);
                        lemma_parse_fields_of_body(body, rest);
                    }
                },
                None => {
                    lemma_rt_plain_none(body, rest);
                    lemma_decode_of_reread_body::<T>(body);
                    lemma_parse_fields_of_body(body, rest);
                },
            }
        },
    }
}

} // verus!
