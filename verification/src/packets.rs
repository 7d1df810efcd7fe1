//! The packet catalog: the typed packets the proxy must encode or decode by
//! name, each with its numeric identifier, its field limits, its canonical
//! encoding and the parse of its fields.

use vstd::prelude::*;
use vstd::string::StrSliceExecFns;

use crate::wire::{
    be16_enc, be32_enc, be64_enc, bool_enc, bytes_enc, lemma_encode_utf8_len, lemma_u32_of_nonneg,
    parse_bool, parse_bytes, parse_i16, parse_u8, parse_i32_be, parse_i64, parse_string, parse_varint,
    string_enc, u32_of_i32, varint_enc, write_bool, write_bytes, write_i16, write_i32_be,
    write_i64, write_string, write_u8, write_varint, Parsed, Reader,
};
use crate::CodecError;

verus! {

/// The connection state a link is in; the handshake packet selects the
/// transition out of `Handshaking`.
#[derive(Clone, Copy, Debug, PartialEq, Eq, Structural)]
pub enum State {
    Handshaking,
    Status,
    Login,
    Play,
}

/// The varint code a connection state travels as.
pub open spec fn state_code(st: State) -> i32 {
    match st {
        State::Handshaking => 0,
        State::Status => 1,
        State::Login => 2,
        State::Play => 3,
    }
}

/// The state a varint code names, when it names one.
pub open spec fn state_of_code(v: i32) -> Option<State> {
    if v == 0 {
        Some(State::Handshaking)
    } else if v == 1 {
        Some(State::Status)
    } else if v == 2 {
        Some(State::Login)
    } else if v == 3 {
        Some(State::Play)
    } else {
        None
    }
}

/// What reading a connection state yields on the front of `s`.
pub open spec fn parse_state(s: Seq<u8>) -> Parsed<State> {
    match parse_varint(s) {
        Parsed::Val((v, _), n) => match state_of_code(v) {
            Some(st) => Parsed::Val(st, n),
            None => Parsed::Fail(CodecError::InvalidFieldValue),
        },
        Parsed::Fail(e) => Parsed::Fail(e),
    }
}

impl View for State {
    type V = State;

    open spec fn view(&self) -> State {
        *self
    }
}

impl State {
    /// The encoding of the state: one varint.
    pub open spec fn wire(&self) -> Seq<u8> {
        varint_enc(state_code(*self) as nat)
    }

    /// Reads a state code; a varint outside the four defined codes is an
    /// `InvalidFieldValue`.
    pub fn read<'x>(r: &mut Reader<'x>) -> (res: Result<State, CodecError>)
        requires
            old(r).wf(),
        ensures
            final(r).wf(),
            final(r).data == old(r).data,
            match res {
                Ok(st) => parse_state(old(r).remaining()) matches Parsed::Val(v, n) && st == v
                    && final(r).pos == old(r).pos + n,
                Err(e) => parse_state(old(r).remaining()) == Parsed::<State>::Fail(e),
            },
    {
        let v = match r.read_varint() {
            Ok(v) => v,
            Err(e) => {
                return Err(e);
            },
        };
        if v.ans == 0 {
            Ok(State::Handshaking)
        } else if v.ans == 1 {
            Ok(State::Status)
        } else if v.ans == 2 {
            Ok(State::Login)
        } else if v.ans == 3 {
            Ok(State::Play)
        } else {
            Err(CodecError::InvalidFieldValue)
        }
    }

    /// Writes the state's varint code.
    pub fn write(&self, out: &mut Vec<u8>)
        ensures
            final(out)@ == old(out)@ + self.wire(),
    {
        let code: i32 = match self {
            State::Handshaking => 0,
            State::Status => 1,
            State::Login => 2,
            State::Play => 3,
        };
        write_varint(out, code);
        proof {
            lemma_u32_of_nonneg(state_code(*self));
        }
    }
}

/// The fields of a packet: how they parse from a byte string, the limits
/// the catalog puts on them, and their canonical encoding.
pub trait PacketData: View + Sized {
    /// The parse of this packet's fields from the front of `s`.
    spec fn parse(s: Seq<u8>) -> Parsed<Self::V>;

    /// The catalog's limits on the fields; what `read` returns satisfies
    /// them and `write` demands them.
    spec fn wf(&self) -> bool;

    /// The canonical encoding of the fields.
    spec fn wire(&self) -> Seq<u8>;

    /// Reads the fields from the cursor; returns exactly what `parse` says
    /// of the bytes at the cursor.
    fn read<'x>(r: &mut Reader<'x>) -> (res: Result<Self, CodecError>)
        requires
            old(r).wf(),
        ensures
            final(r).wf(),
            final(r).data == old(r).data,
            match res {
                Ok(p) => Self::parse(old(r).remaining()) matches Parsed::Val(v, n) && p@ == v
                    && p.wf() && final(r).pos == old(r).pos + n,
                Err(e) => Self::parse(old(r).remaining()) == Parsed::<Self::V>::Fail(e),
            },
    ;

    /// Appends the canonical encoding of the fields.
    fn write(&self, out: &mut Vec<u8>)
        requires
            self.wf(),
        ensures
            final(out)@ == old(out)@ + self.wire(),
    ;
}

/// A packet the catalog assigns a numeric identifier to.
pub trait Packet: PacketData {
    /// The packet's identifier in its state and direction.
    spec fn spec_id() -> i32;

    /// Returns the packet's identifier.
    fn id() -> (r: i32)
        ensures
            r == Self::spec_id(),
            0 <= r < 128,
    ;
}

/// An `i32` that travels as a varint.
#[derive(Debug, Clone, Copy, PartialEq, Eq, Structural)]
pub struct VarInt(pub i32);

impl View for VarInt {
    type V = i32;

    open spec fn view(&self) -> i32 {
        self.0
    }
}

impl VarInt {
    /// The wrapped value.
    pub fn value(&self) -> (r: i32)
        ensures
            r == self.0,
    {
        self.0
    }
}

impl From<i32> for VarInt {
    fn from(v: i32) -> (r: VarInt) {
        VarInt(v)
    }
}

impl vstd::std_specs::convert::FromSpecImpl<i32> for VarInt {
    open spec fn obeys_from_spec() -> bool {
        true
    }

    open spec fn from_spec(v: i32) -> VarInt {
        VarInt(v)
    }
}

impl PacketData for VarInt {
    open spec fn parse(s: Seq<u8>) -> Parsed<i32> {
        match parse_varint(s) {
            Parsed::Val((v, _), n) => Parsed::Val(v, n),
            Parsed::Fail(e) => Parsed::Fail(e),
        }
    }

    open spec fn wf(&self) -> bool {
        true
    }

    open spec fn wire(&self) -> Seq<u8> {
        varint_enc(u32_of_i32(self.0))
    }

    fn read<'x>(r: &mut Reader<'x>) -> (res: Result<Self, CodecError>) {
        match r.read_varint() {
            Ok(v) => Ok(VarInt(v.ans)),
            Err(e) => Err(e),
        }
    }

    fn write(&self, out: &mut Vec<u8>) {
        write_varint(out, self.0);
    }
}

/// The first packet of every connection: selects status or login.
#[derive(Debug)]
pub struct Handshake {
    pub protocol: VarInt,
    pub address: String,
    pub port: i16,
    pub next_state: State,
}

impl View for Handshake {
    type V = (i32, Seq<char>, i16, State);

    open spec fn view(&self) -> Self::V {
        (self.protocol.0, self.address@, self.port, self.next_state)
    }
}

/// The parse of a handshake's fields.
pub open spec fn parse_handshake(s: Seq<u8>) -> Parsed<(i32, Seq<char>, i16, State)> {
    match parse_varint(s) {
        Parsed::Fail(e) => Parsed::Fail(e),
        Parsed::Val((protocol, _), n1) => match parse_string(s.skip(n1 as int), 255) {
            Parsed::Fail(e) => Parsed::Fail(e),
            Parsed::Val(address, n2) => match parse_i16(s.skip((n1 + n2) as int)) {
                Parsed::Fail(e) => Parsed::Fail(e),
                Parsed::Val(port, n3) => match parse_state(s.skip((n1 + n2 + n3) as int)) {
                    Parsed::Fail(e) => Parsed::Fail(e),
                    Parsed::Val(next_state, n4) => Parsed::Val(
                        (protocol, address, port, next_state),
                        n1 + n2 + n3 + n4,
                    ),
                },
            },
        },
    }
}

impl Packet for Handshake {
    open spec fn spec_id() -> i32 {
        0x00
    }

    fn id() -> i32 {
        0x00
    }
}

impl PacketData for Handshake {
    open spec fn parse(s: Seq<u8>) -> Parsed<Self::V> {
        parse_handshake(s)
    }

    open spec fn wf(&self) -> bool {
        self.address@.len() <= 255
    }

    open spec fn wire(&self) -> Seq<u8> {
        varint_enc(u32_of_i32(self.protocol.0)) + string_enc(self.address@) + be16_enc(self.port)
            + self.next_state.wire()
    }

    fn read<'x>(r: &mut Reader<'x>) -> (res: Result<Self, CodecError>) {
        let ghost s0 = old(r).remaining();
        let protocol = match r.read_varint() {
            Ok(v) => v,
            Err(e) => {
                return Err(e);
            },
        };
        let ghost n1 = protocol.size as nat;
        proof {
            assert(r.remaining() =~= s0.skip(n1 as int));
        }
        let address = match r.read_string(255) {
            Ok(v) => v,
            Err(e) => {
                return Err(e);
            },
        };
        let ghost n2 = (r.pos - old(r).pos - n1) as nat;
        proof {
            assert(r.remaining() =~= s0.skip((n1 + n2) as int));
        }
        let port = match r.read_i16() {
            Ok(v) => v,
            Err(e) => {
                return Err(e);
            },
        };
        proof {
            assert(r.remaining() =~= s0.skip((n1 + n2 + 2) as int));
        }
        let next_state = match State::read(r) {
            Ok(v) => v,
            Err(e) => {
                return Err(e);
            },
        };
        Ok(Handshake { protocol: VarInt(protocol.ans), address, port, next_state })
    }

    fn write(&self, out: &mut Vec<u8>) {
        write_varint(out, self.protocol.0);
        proof {
            lemma_encode_utf8_len(self.address@);
        }
        write_string(out, self.address.as_str());
        write_i16(out, self.port);
        self.next_state.write(out);
        proof {
            assert(out@ =~= old(out)@ + self.wire());
        }
    }
}

/// The status request: no fields.
#[derive(Debug)]
pub struct StatusRequest;

impl View for StatusRequest {
    type V = ();

    open spec fn view(&self) -> () {
        ()
    }
}

impl Packet for StatusRequest {
    open spec fn spec_id() -> i32 {
        0x00
    }

    fn id() -> i32 {
        0x00
    }
}

impl PacketData for StatusRequest {
    open spec fn parse(s: Seq<u8>) -> Parsed<()> {
        Parsed::Val((), 0)
    }

    open spec fn wf(&self) -> bool {
        true
    }

    open spec fn wire(&self) -> Seq<u8> {
        Seq::empty()
    }

    fn read<'x>(r: &mut Reader<'x>) -> (res: Result<Self, CodecError>) {
        Ok(StatusRequest)
    }

    fn write(&self, out: &mut Vec<u8>) {
        proof {
            assert(out@ =~= old(out)@ + self.wire());
        }
    }
}

/// The status response: the host-configured server-list JSON.
#[derive(Debug)]
pub struct StatusResponse {
    pub response: String,
}

impl View for StatusResponse {
    type V = Seq<char>;

    open spec fn view(&self) -> Seq<char> {
        self.response@
    }
}

impl Packet for StatusResponse {
    open spec fn spec_id() -> i32 {
        0x00
    }

    fn id() -> i32 {
        0x00
    }
}

impl PacketData for StatusResponse {
    open spec fn parse(s: Seq<u8>) -> Parsed<Seq<char>> {
        parse_string(s, 32767)
    }

    open spec fn wf(&self) -> bool {
        self.response@.len() <= 32767
    }

    open spec fn wire(&self) -> Seq<u8> {
        string_enc(self.response@)
    }

    fn read<'x>(r: &mut Reader<'x>) -> (res: Result<Self, CodecError>) {
        match r.read_string(32767) {
            Ok(response) => Ok(StatusResponse { response }),
            Err(e) => Err(e),
        }
    }

    fn write(&self, out: &mut Vec<u8>) {
        proof {
            lemma_encode_utf8_len(self.response@);
        }
        write_string(out, self.response.as_str());
    }
}

/// The status ping; the proxy echoes its payload back as a `Pong`.
#[derive(Debug)]
pub struct Ping {
    pub payload: i64,
}

impl View for Ping {
    type V = i64;

    open spec fn view(&self) -> i64 {
        self.payload
    }
}

impl Packet for Ping {
    open spec fn spec_id() -> i32 {
        0x01
    }

    fn id() -> i32 {
        0x01
    }
}

impl PacketData for Ping {
    open spec fn parse(s: Seq<u8>) -> Parsed<i64> {
        parse_i64(s)
    }

    open spec fn wf(&self) -> bool {
        true
    }

    open spec fn wire(&self) -> Seq<u8> {
        be64_enc(self.payload)
    }

    fn read<'x>(r: &mut Reader<'x>) -> (res: Result<Self, CodecError>) {
        match r.read_i64() {
            Ok(payload) => Ok(Ping { payload }),
            Err(e) => Err(e),
        }
    }

    fn write(&self, out: &mut Vec<u8>) {
        write_i64(out, self.payload);
    }
}

/// The echo of a `Ping`, with the same payload.
#[derive(Debug)]
pub struct Pong {
    pub payload: i64,
}

impl View for Pong {
    type V = i64;

    open spec fn view(&self) -> i64 {
        self.payload
    }
}

impl Packet for Pong {
    open spec fn spec_id() -> i32 {
        0x01
    }

    fn id() -> i32 {
        0x01
    }
}

impl PacketData for Pong {
    open spec fn parse(s: Seq<u8>) -> Parsed<i64> {
        parse_i64(s)
    }

    open spec fn wf(&self) -> bool {
        true
    }

    open spec fn wire(&self) -> Seq<u8> {
        be64_enc(self.payload)
    }

    fn read<'x>(r: &mut Reader<'x>) -> (res: Result<Self, CodecError>) {
        match r.read_i64() {
            Ok(payload) => Ok(Pong { payload }),
            Err(e) => Err(e),
        }
    }

    fn write(&self, out: &mut Vec<u8>) {
        write_i64(out, self.payload);
    }
}

/// The first login packet: the player's claimed name, at most sixteen
/// characters.
#[derive(Debug)]
pub struct LoginStart {
    pub name: String,
}

impl View for LoginStart {
    type V = Seq<char>;

    open spec fn view(&self) -> Seq<char> {
        self.name@
    }
}

impl Packet for LoginStart {
    open spec fn spec_id() -> i32 {
        0x00
    }

    fn id() -> i32 {
        0x00
    }
}

impl PacketData for LoginStart {
    open spec fn parse(s: Seq<u8>) -> Parsed<Seq<char>> {
        parse_string(s, 16)
    }

    open spec fn wf(&self) -> bool {
        self.name@.len() <= 16
    }

    open spec fn wire(&self) -> Seq<u8> {
        string_enc(self.name@)
    }

    fn read<'x>(r: &mut Reader<'x>) -> (res: Result<Self, CodecError>) {
        match r.read_string(16) {
            Ok(name) => Ok(LoginStart { name }),
            Err(e) => Err(e),
        }
    }

    fn write(&self, out: &mut Vec<u8>) {
        proof {
            lemma_encode_utf8_len(self.name@);
        }
        write_string(out, self.name.as_str());
    }
}

/// A login-state kick with a JSON reason.
#[derive(Debug)]
pub struct Disconnect {
    pub reason: String,
}

impl View for Disconnect {
    type V = Seq<char>;

    open spec fn view(&self) -> Seq<char> {
        self.reason@
    }
}

impl Packet for Disconnect {
    open spec fn spec_id() -> i32 {
        0x00
    }

    fn id() -> i32 {
        0x00
    }
}

impl PacketData for Disconnect {
    open spec fn parse(s: Seq<u8>) -> Parsed<Seq<char>> {
        parse_string(s, 32767)
    }

    open spec fn wf(&self) -> bool {
        self.reason@.len() <= 32767
    }

    open spec fn wire(&self) -> Seq<u8> {
        string_enc(self.reason@)
    }

    fn read<'x>(r: &mut Reader<'x>) -> (res: Result<Self, CodecError>) {
        match r.read_string(32767) {
            Ok(reason) => Ok(Disconnect { reason }),
            Err(e) => Err(e),
        }
    }

    fn write(&self, out: &mut Vec<u8>) {
        proof {
            lemma_encode_utf8_len(self.reason@);
        }
        write_string(out, self.reason.as_str());
    }
}

/// A server's demand that the client encrypt: the proxy sends it to clients
/// when the online authentication provider is used, and refuses backends
/// that send it.
#[derive(Debug)]
pub struct EncryptionRequest {
    pub public: Vec<u8>,
    pub server_id: String,
    pub verify_token: Vec<u8>,
}

impl View for EncryptionRequest {
    type V = (Seq<char>, Seq<u8>, Seq<u8>);

    open spec fn view(&self) -> Self::V {
        (self.server_id@, self.public@, self.verify_token@)
    }
}

/// The parse of an encryption request's fields: server id, then the
/// length-prefixed public key and verify token.
pub open spec fn parse_encryption_request(s: Seq<u8>) -> Parsed<(Seq<char>, Seq<u8>, Seq<u8>)> {
    match parse_string(s, 20) {
        Parsed::Fail(e) => Parsed::Fail(e),
        Parsed::Val(server_id, n1) => match parse_bytes(s.skip(n1 as int), 0x7fffffff) {
            Parsed::Fail(e) => Parsed::Fail(e),
            Parsed::Val(public, n2) => match parse_bytes(s.skip((n1 + n2) as int), 0x7fffffff) {
                Parsed::Fail(e) => Parsed::Fail(e),
                Parsed::Val(verify_token, n3) => Parsed::Val(
                    (server_id, public, verify_token),
                    n1 + n2 + n3,
                ),
            },
        },
    }
}

impl Packet for EncryptionRequest {
    open spec fn spec_id() -> i32 {
        0x01
    }

    fn id() -> i32 {
        0x01
    }
}

impl PacketData for EncryptionRequest {
    open spec fn parse(s: Seq<u8>) -> Parsed<Self::V> {
        parse_encryption_request(s)
    }

    open spec fn wf(&self) -> bool {
        self.server_id@.len() <= 20 && self.public@.len() <= 0x7fffffff && self.verify_token@.len()
            <= 0x7fffffff
    }

    open spec fn wire(&self) -> Seq<u8> {
        string_enc(self.server_id@) + bytes_enc(self.public@) + bytes_enc(self.verify_token@)
    }

    fn read<'x>(r: &mut Reader<'x>) -> (res: Result<Self, CodecError>) {
        let ghost s0 = old(r).remaining();
        let server_id = match r.read_string(20) {
            Ok(v) => v,
            Err(e) => {
                return Err(e);
            },
        };
        let ghost n1 = (r.pos - old(r).pos) as nat;
        proof {
            assert(r.remaining() =~= s0.skip(n1 as int));
        }
        let public = match r.read_bytes(0x7fffffff) {
            Ok(v) => v,
            Err(e) => {
                return Err(e);
            },
        };
        let ghost n2 = (r.pos - old(r).pos - n1) as nat;
        proof {
            assert(r.remaining() =~= s0.skip((n1 + n2) as int));
        }
        let verify_token = match r.read_bytes(0x7fffffff) {
            Ok(v) => v,
            Err(e) => {
                return Err(e);
            },
        };
        Ok(EncryptionRequest { public, server_id, verify_token })
    }

    fn write(&self, out: &mut Vec<u8>) {
        proof {
            lemma_encode_utf8_len(self.server_id@);
        }
        write_string(out, self.server_id.as_str());
        write_bytes(out, self.public.as_slice());
        write_bytes(out, self.verify_token.as_slice());
        proof {
            assert(out@ =~= old(out)@ + self.wire());
        }
    }
}

/// The client's answer to an encryption request: the RSA-encrypted shared
/// secret and verify token.
#[derive(Debug)]
pub struct EncryptionResponse {
    pub shared_secret: Vec<u8>,
    pub verify_token: Vec<u8>,
}

impl View for EncryptionResponse {
    type V = (Seq<u8>, Seq<u8>);

    open spec fn view(&self) -> Self::V {
        (self.shared_secret@, self.verify_token@)
    }
}

/// The parse of an encryption response's fields: two byte strings of at
/// most 128 bytes each.
pub open spec fn parse_encryption_response(s: Seq<u8>) -> Parsed<(Seq<u8>, Seq<u8>)> {
    match parse_bytes(s, 128) {
        Parsed::Fail(e) => Parsed::Fail(e),
        Parsed::Val(shared_secret, n1) => match parse_bytes(s.skip(n1 as int), 128) {
            Parsed::Fail(e) => Parsed::Fail(e),
            Parsed::Val(verify_token, n2) => Parsed::Val((shared_secret, verify_token), n1 + n2),
        },
    }
}

impl Packet for EncryptionResponse {
    open spec fn spec_id() -> i32 {
        0x01
    }

    fn id() -> i32 {
        0x01
    }
}

impl PacketData for EncryptionResponse {
    open spec fn parse(s: Seq<u8>) -> Parsed<Self::V> {
        parse_encryption_response(s)
    }

    open spec fn wf(&self) -> bool {
        self.shared_secret@.len() <= 128 && self.verify_token@.len() <= 128
    }

    open spec fn wire(&self) -> Seq<u8> {
        bytes_enc(self.shared_secret@) + bytes_enc(self.verify_token@)
    }

    fn read<'x>(r: &mut Reader<'x>) -> (res: Result<Self, CodecError>) {
        let ghost s0 = old(r).remaining();
        let shared_secret = match r.read_bytes(128) {
            Ok(v) => v,
            Err(e) => {
                return Err(e);
            },
        };
        let ghost n1 = (r.pos - old(r).pos) as nat;
        proof {
            assert(r.remaining() =~= s0.skip(n1 as int));
        }
        let verify_token = match r.read_bytes(128) {
            Ok(v) => v,
            Err(e) => {
                return Err(e);
            },
        };
        Ok(EncryptionResponse { shared_secret, verify_token })
    }

    fn write(&self, out: &mut Vec<u8>) {
        write_bytes(out, self.shared_secret.as_slice());
        write_bytes(out, self.verify_token.as_slice());
        proof {
            assert(out@ =~= old(out)@ + self.wire());
        }
    }
}

/// The server's confirmation that login succeeded, carrying the canonical
/// hyphenated UUID and the username.
#[derive(Debug)]
pub struct LoginSuccess {
    pub uuid: String,
    pub username: String,
}

impl View for LoginSuccess {
    type V = (Seq<char>, Seq<char>);

    open spec fn view(&self) -> Self::V {
        (self.uuid@, self.username@)
    }
}

/// The parse of a login success: the UUID text, then the username.
pub open spec fn parse_login_success(s: Seq<u8>) -> Parsed<(Seq<char>, Seq<char>)> {
    match parse_string(s, 36) {
        Parsed::Fail(e) => Parsed::Fail(e),
        Parsed::Val(uuid, n1) => match parse_string(s.skip(n1 as int), 16) {
            Parsed::Fail(e) => Parsed::Fail(e),
            Parsed::Val(username, n2) => Parsed::Val((uuid, username), n1 + n2),
        },
    }
}

impl Packet for LoginSuccess {
    open spec fn spec_id() -> i32 {
        0x02
    }

    fn id() -> i32 {
        0x02
    }
}

impl PacketData for LoginSuccess {
    open spec fn parse(s: Seq<u8>) -> Parsed<Self::V> {
        parse_login_success(s)
    }

    open spec fn wf(&self) -> bool {
        self.uuid@.len() <= 36 && self.username@.len() <= 16
    }

    open spec fn wire(&self) -> Seq<u8> {
        string_enc(self.uuid@) + string_enc(self.username@)
    }

    fn read<'x>(r: &mut Reader<'x>) -> (res: Result<Self, CodecError>) {
        let ghost s0 = old(r).remaining();
        let uuid = match r.read_string(36) {
            Ok(v) => v,
            Err(e) => {
                return Err(e);
            },
        };
        let ghost n1 = (r.pos - old(r).pos) as nat;
        proof {
            assert(r.remaining() =~= s0.skip(n1 as int));
        }
        let username = match r.read_string(16) {
            Ok(v) => v,
            Err(e) => {
                return Err(e);
            },
        };
        Ok(LoginSuccess { uuid, username })
    }

    fn write(&self, out: &mut Vec<u8>) {
        proof {
            lemma_encode_utf8_len(self.uuid@);
            lemma_encode_utf8_len(self.username@);
        }
        write_string(out, self.uuid.as_str());
        write_string(out, self.username.as_str());
        proof {
            assert(out@ =~= old(out)@ + self.wire());
        }
    }
}

/// The server's announcement of a compression threshold for the link.
#[derive(Debug)]
pub struct SetCompression {
    pub threshold: VarInt,
}

impl View for SetCompression {
    type V = i32;

    open spec fn view(&self) -> i32 {
        self.threshold.0
    }
}

impl Packet for SetCompression {
    open spec fn spec_id() -> i32 {
        0x03
    }

    fn id() -> i32 {
        0x03
    }
}

impl PacketData for SetCompression {
    open spec fn parse(s: Seq<u8>) -> Parsed<i32> {
        match parse_varint(s) {
            Parsed::Val((v, _), n) => Parsed::Val(v, n),
            Parsed::Fail(e) => Parsed::Fail(e),
        }
    }

    open spec fn wf(&self) -> bool {
        true
    }

    open spec fn wire(&self) -> Seq<u8> {
        varint_enc(u32_of_i32(self.threshold.0))
    }

    fn read<'x>(r: &mut Reader<'x>) -> (res: Result<Self, CodecError>) {
        match r.read_varint() {
            Ok(v) => Ok(SetCompression { threshold: VarInt(v.ans) }),
            Err(e) => Err(e),
        }
    }

    fn write(&self, out: &mut Vec<u8>) {
        write_varint(out, self.threshold.0);
    }
}

/// A chat message from the client, at most 256 characters; the pump
/// inspects it for the two in-band control commands.
#[derive(Debug)]
pub struct ChatRequest {
    pub message: String,
}

impl View for ChatRequest {
    type V = Seq<char>;

    open spec fn view(&self) -> Seq<char> {
        self.message@
    }
}

impl Packet for ChatRequest {
    open spec fn spec_id() -> i32 {
        0x0F
    }

    fn id() -> i32 {
        0x0F
    }
}

impl PacketData for ChatRequest {
    open spec fn parse(s: Seq<u8>) -> Parsed<Seq<char>> {
        parse_string(s, 256)
    }

    open spec fn wf(&self) -> bool {
        self.message@.len() <= 256
    }

    open spec fn wire(&self) -> Seq<u8> {
        string_enc(self.message@)
    }

    fn read<'x>(r: &mut Reader<'x>) -> (res: Result<Self, CodecError>) {
        match r.read_string(256) {
            Ok(message) => Ok(ChatRequest { message }),
            Err(e) => Err(e),
        }
    }

    fn write(&self, out: &mut Vec<u8>) {
        proof {
            lemma_encode_utf8_len(self.message@);
        }
        write_string(out, self.message.as_str());
    }
}

/// A chat message to the client: the text and the screen position it is
/// shown at.
#[derive(Debug)]
pub struct Chat {
    pub message: String,
    pub position: u8,
}

impl View for Chat {
    type V = (Seq<char>, u8);

    open spec fn view(&self) -> Self::V {
        (self.message@, self.position)
    }
}

/// The parse of an outbound chat packet: the text, then one position byte.
pub open spec fn parse_chat(s: Seq<u8>) -> Parsed<(Seq<char>, u8)> {
    match parse_string(s, 256) {
        Parsed::Fail(e) => Parsed::Fail(e),
        Parsed::Val(message, n1) => match parse_u8(s.skip(n1 as int)) {
            Parsed::Fail(e) => Parsed::Fail(e),
            Parsed::Val(position, n2) => Parsed::Val((message, position), n1 + n2),
        },
    }
}

impl Packet for Chat {
    open spec fn spec_id() -> i32 {
        0x0F
    }

    fn id() -> i32 {
        0x0F
    }
}

impl PacketData for Chat {
    open spec fn parse(s: Seq<u8>) -> Parsed<Self::V> {
        parse_chat(s)
    }

    open spec fn wf(&self) -> bool {
        self.message@.len() <= 256
    }

    open spec fn wire(&self) -> Seq<u8> {
        string_enc(self.message@) + seq![self.position]
    }

    fn read<'x>(r: &mut Reader<'x>) -> (res: Result<Self, CodecError>) {
        let ghost s0 = old(r).remaining();
        let message = match r.read_string(256) {
            Ok(v) => v,
            Err(e) => {
                return Err(e);
            },
        };
        let ghost n1 = (r.pos - old(r).pos) as nat;
        proof {
            assert(r.remaining() =~= s0.skip(n1 as int));
        }
        let position = match r.read_u8() {
            Ok(v) => v,
            Err(e) => {
                return Err(e);
            },
        };
        Ok(Chat { message, position })
    }

    fn write(&self, out: &mut Vec<u8>) {
        proof {
            lemma_encode_utf8_len(self.message@);
        }
        write_string(out, self.message.as_str());
        write_u8(out, self.position);
        proof {
            assert(out@ =~= old(out)@ + self.wire());
        }
    }
}

/// The keep-alive ping of the play state.
#[derive(Debug)]
pub struct KeepAlive {
    pub random_id: i16,
}

impl View for KeepAlive {
    type V = i16;

    open spec fn view(&self) -> i16 {
        self.random_id
    }
}

impl Packet for KeepAlive {
    open spec fn spec_id() -> i32 {
        0x21
    }

    fn id() -> i32 {
        0x21
    }
}

impl PacketData for KeepAlive {
    open spec fn parse(s: Seq<u8>) -> Parsed<i16> {
        parse_i16(s)
    }

    open spec fn wf(&self) -> bool {
        true
    }

    open spec fn wire(&self) -> Seq<u8> {
        be16_enc(self.random_id)
    }

    fn read<'x>(r: &mut Reader<'x>) -> (res: Result<Self, CodecError>) {
        match r.read_i16() {
            Ok(random_id) => Ok(KeepAlive { random_id }),
            Err(e) => Err(e),
        }
    }

    fn write(&self, out: &mut Vec<u8>) {
        write_i16(out, self.random_id);
    }
}

/// The join-game packet of the play state; the proxy can decode it but
/// forwards it opaquely.
#[derive(Debug)]
pub struct JoinGame {
    pub entity_id: i32,
    pub game_mode: u8,
    pub dimension: i32,
    pub difficulty: u8,
    pub max_players: u8,
    pub level_type: String,
    pub reduced_debug_info: bool,
}

impl View for JoinGame {
    type V = (i32, u8, i32, u8, u8, Seq<char>, bool);

    open spec fn view(&self) -> Self::V {
        (
            self.entity_id,
            self.game_mode,
            self.dimension,
            self.difficulty,
            self.max_players,
            self.level_type@,
            self.reduced_debug_info,
        )
    }
}

/// The parse of a join-game packet's fields.
pub open spec fn parse_join_game(s: Seq<u8>) -> Parsed<(i32, u8, i32, u8, u8, Seq<char>, bool)> {
    match parse_i32_be(s) {
        Parsed::Fail(e) => Parsed::Fail(e),
        Parsed::Val(entity_id, n1) => match parse_u8(s.skip(n1 as int)) {
            Parsed::Fail(e) => Parsed::Fail(e),
            Parsed::Val(game_mode, n2) => match parse_i32_be(s.skip((n1 + n2) as int)) {
                Parsed::Fail(e) => Parsed::Fail(e),
                Parsed::Val(dimension, n3) => match parse_u8(s.skip((n1 + n2 + n3) as int)) {
                    Parsed::Fail(e) => Parsed::Fail(e),
                    Parsed::Val(difficulty, n4) => match parse_u8(
                        s.skip((n1 + n2 + n3 + n4) as int),
                    ) {
                        Parsed::Fail(e) => Parsed::Fail(e),
                        Parsed::Val(max_players, n5) => match parse_string(
                            s.skip((n1 + n2 + n3 + n4 + n5) as int),
                            32767,
                        ) {
                            Parsed::Fail(e) => Parsed::Fail(e),
                            Parsed::Val(level_type, n6) => match parse_bool(
                                s.skip((n1 + n2 + n3 + n4 + n5 + n6) as int),
                            ) {
                                Parsed::Fail(e) => Parsed::Fail(e),
                                Parsed::Val(reduced_debug_info, n7) => Parsed::Val(
                                    (
                                        entity_id,
                                        game_mode,
                                        dimension,
                                        difficulty,
                                        max_players,
                                        level_type,
                                        reduced_debug_info,
                                    ),
                                    n1 + n2 + n3 + n4 + n5 + n6 + n7,
                                ),
                            },
                        },
                    },
                },
            },
        },
    }
}

impl Packet for JoinGame {
    open spec fn spec_id() -> i32 {
        0x26
    }

    fn id() -> i32 {
        0x26
    }
}

impl PacketData for JoinGame {
    open spec fn parse(s: Seq<u8>) -> Parsed<Self::V> {
        parse_join_game(s)
    }

    open spec fn wf(&self) -> bool {
        self.level_type@.len() <= 32767
    }

    open spec fn wire(&self) -> Seq<u8> {
        be32_enc(self.entity_id) + seq![self.game_mode] + be32_enc(self.dimension)
            + seq![self.difficulty] + seq![self.max_players] + string_enc(self.level_type@)
            + bool_enc(self.reduced_debug_info)
    }

    fn read<'x>(r: &mut Reader<'x>) -> (res: Result<Self, CodecError>) {
        let ghost s0 = old(r).remaining();
        let entity_id = match r.read_i32_be() {
            Ok(v) => v,
            Err(e) => {
                return Err(e);
            },
        };
        proof {
            assert(r.remaining() =~= s0.skip(4));
        }
        let game_mode = match r.read_u8() {
            Ok(v) => v,
            Err(e) => {
                return Err(e);
            },
        };
        proof {
            assert(r.remaining() =~= s0.skip(5));
        }
        let dimension = match r.read_i32_be() {
            Ok(v) => v,
            Err(e) => {
                return Err(e);
            },
        };
        proof {
            assert(r.remaining() =~= s0.skip(9));
        }
        let difficulty = match r.read_u8() {
            Ok(v) => v,
            Err(e) => {
                return Err(e);
            },
        };
        proof {
            assert(r.remaining() =~= s0.skip(10));
        }
        let max_players = match r.read_u8() {
            Ok(v) => v,
            Err(e) => {
                return Err(e);
            },
        };
        proof {
            assert(r.remaining() =~= s0.skip(11));
        }
        let level_type = match r.read_string(32767) {
            Ok(v) => v,
            Err(e) => {
                return Err(e);
            },
        };
        let ghost n6 = (r.pos - old(r).pos - 11) as nat;
        proof {
            assert(r.remaining() =~= s0.skip((11 + n6) as int));
        }
        let reduced_debug_info = match r.read_bool() {
            Ok(v) => v,
            Err(e) => {
                return Err(e);
            },
        };
        Ok(
            JoinGame {
                entity_id,
                game_mode,
                dimension,
                difficulty,
                max_players,
                level_type,
                reduced_debug_info,
            },
        )
    }

    fn write(&self, out: &mut Vec<u8>) {
        write_i32_be(out, self.entity_id);
        write_u8(out, self.game_mode);
        write_i32_be(out, self.dimension);
        write_u8(out, self.difficulty);
        write_u8(out, self.max_players);
        proof {
            lemma_encode_utf8_len(self.level_type@);
        }
        write_string(out, self.level_type.as_str());
        write_bool(out, self.reduced_debug_info);
        proof {
            assert(out@ =~= old(out)@ + self.wire());
        }
    }
}

} // verus!
