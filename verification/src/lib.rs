//! A transparent Minecraft Java Edition protocol proxy core: the framed
//! packet codec (varints, length-prefixed frames, optional zlib
//! compression), the packet catalog, the login state machines for both the
//! player-facing and the backend-facing side, and the packet pump that
//! splices the two connections together.

pub mod auth;
pub mod frame;
pub mod login;
pub mod packets;
pub mod pump;
pub mod wire;

use vstd::prelude::*;

verus! {

/// An error of the codec layer. `Io` stands for an input that ended before
/// the value did (a short read); the remaining variants are protocol
/// violations by the peer.
#[derive(Clone, Copy, Debug, PartialEq, Eq, Structural)]
pub enum CodecError {
    /// The input ended before the value was complete.
    Io,
    /// A varint whose first five bytes all carry the continuation bit.
    VarintTooLong,
    /// A length prefix that is negative or above the caller's limit.
    LengthExceedsLimit,
    /// A frame whose packet id differs from the requested packet's id.
    WrongPacketId,
    /// A packet body that was not consumed entirely by decoding.
    TrailingBytes,
    /// A field whose value is outside the set the protocol allows.
    InvalidFieldValue,
    /// A compressed payload that zlib cannot decompress.
    BadCompressedData,
}

} // verus!
