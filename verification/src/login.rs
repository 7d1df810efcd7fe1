//! The login drivers: the state machine run against the player-facing
//! socket until the user is authenticated or the status dance ends, and the
//! state machine run against a freshly dialed backend until it confirms
//! login with the required compression threshold.

use vstd::prelude::*;

use crate::auth::AuthError;
use crate::frame::{
    frame_decode, frame_id_result, frame_wf, FrameView, MaybeCompressed,
};
use crate::packets::{
    Disconnect, EncryptionResponse, Handshake, LoginStart, LoginSuccess, Ping, SetCompression,
    State, StatusRequest,
};
use crate::pump::TargetServer;
use crate::CodecError;

verus! {

/// The compression threshold this proxy advertises to clients and demands
/// of every backend; equal thresholds are what make opaque forwarding of
/// compressed frames correct.
pub const THRESHOLD: i32 = 256;

/// What the client-side login driver hands over once a user is
/// authenticated.
#[derive(Debug, Clone)]
pub struct LoggedInInfo {
    pub username: String,
    pub uuid: String,
    pub protocol: i32,
}

/// Why the client-side login driver gave up on a connection.
#[derive(Debug)]
pub enum SocketLoginError {
    /// The codec failed on the client's bytes.
    Io(CodecError),
    /// A packet id that has no meaning in the current state.
    IncorrectStateIdCombo(State, i32),
    /// The client tried to authenticate without having sent a login start.
    MissingLoginStart,
    /// The client answered an encryption challenge nobody issued.
    AuthPluginDidNotRequestEncryption,
    /// The authentication provider rejected the user.
    AuthError(AuthError),
}

/// The client-side login driver's memory between frames.
#[derive(Debug, Clone, Copy, PartialEq, Eq, Structural)]
pub struct ClientLogin {
    /// The connection state of the player-facing link.
    pub state: State,
    /// The protocol version the handshake announced, once it did.
    pub protocol: Option<i32>,
    /// Whether an encryption challenge is outstanding.
    pub awaiting_encryption: bool,
}

/// What the driver asks its host to do after one client frame.
pub enum ClientLoginAction {
    /// Answer with the host-configured status JSON.
    SendStatusResponse,
    /// Echo a pong with this payload; the client will then close.
    SendPong(i64),
    /// Hand this name to the authentication provider.
    AuthStart(String),
    /// Hand this response to the provider that issued the challenge.
    VerifyEncryption(EncryptionResponse),
}

/// The mathematical mirror of `ClientLoginAction`.
pub enum ClientLoginActionV {
    SendStatusResponse,
    SendPong(i64),
    AuthStart(Seq<char>),
    VerifyEncryption((Seq<u8>, Seq<u8>)),
}

impl View for ClientLoginAction {
    type V = ClientLoginActionV;

    open spec fn view(&self) -> ClientLoginActionV {
        match self {
            ClientLoginAction::SendStatusResponse => ClientLoginActionV::SendStatusResponse,
            ClientLoginAction::SendPong(p) => ClientLoginActionV::SendPong(*p),
            ClientLoginAction::AuthStart(name) => ClientLoginActionV::AuthStart(name@),
            ClientLoginAction::VerifyEncryption(res) => ClientLoginActionV::VerifyEncryption(res@),
        }
    }
}

/// The transition relation of the client-side login state machine, frame by
/// frame: what the new state is and what the host must do, or the error
/// that ends the session.
pub open spec fn client_step_spec(st: ClientLogin, f: FrameView) -> Result<
    (ClientLogin, Option<ClientLoginActionV>),
    SocketLoginError,
> {
    match frame_id_result(f) {
        Err(e) => Err(SocketLoginError::Io(e)),
        Ok(id) => match (st.state, id) {
            (State::Handshaking, 0x00) => match frame_decode::<Handshake>(f) {
                Err(e) => Err(SocketLoginError::Io(e)),
                Ok((protocol, _address, _port, next_state)) => Ok(
                    (
                        ClientLogin {
                            state: if next_state == State::Login {
                                State::Login
                            } else {
                                State::Status
                            },
                            protocol: Some(protocol),
                            awaiting_encryption: false,
                        },
                        None,
                    ),
                ),
            },
            (State::Status, 0x00) => match frame_decode::<StatusRequest>(f) {
                Err(e) => Err(SocketLoginError::Io(e)),
                Ok(_) => Ok((st, Some(ClientLoginActionV::SendStatusResponse))),
            },
            (State::Status, 0x01) => match frame_decode::<Ping>(f) {
                Err(e) => Err(SocketLoginError::Io(e)),
                Ok(payload) => Ok((st, Some(ClientLoginActionV::SendPong(payload)))),
            },
            (State::Login, 0x00) => match frame_decode::<LoginStart>(f) {
                Err(e) => Err(SocketLoginError::Io(e)),
                Ok(name) => Ok((st, Some(ClientLoginActionV::AuthStart(name)))),
            },
            (State::Login, 0x01) => if !st.awaiting_encryption {
                Err(SocketLoginError::AuthPluginDidNotRequestEncryption)
            } else {
                match frame_decode::<EncryptionResponse>(f) {
                    Err(e) => Err(SocketLoginError::Io(e)),
                    Ok(res) => Ok(
                        (
                            ClientLogin { awaiting_encryption: false, ..st },
                            Some(ClientLoginActionV::VerifyEncryption(res)),
                        ),
                    ),
                }
            },
            _ => Err(SocketLoginError::IncorrectStateIdCombo(st.state, id)),
        },
    }
}

/// Whether an optional exec action mirrors an optional spec action.
pub open spec fn action_matches(
    a: Option<ClientLoginAction>,
    v: Option<ClientLoginActionV>,
) -> bool {
    match a {
        Some(x) => v matches Some(w) && x@ == w,
        None => v is None,
    }
}

impl ClientLogin {
    /// A fresh player-facing connection: handshaking, nothing known.
    pub fn new() -> (r: ClientLogin)
        ensures
            r == (ClientLogin { state: State::Handshaking, protocol: None, awaiting_encryption: false }),
    {
        ClientLogin { state: State::Handshaking, protocol: None, awaiting_encryption: false }
    }

    /// Feeds one client frame to the state machine: exactly the transition
    /// `client_step_spec` prescribes, leaving the state untouched on error.
    pub fn step(&mut self, frame: MaybeCompressed) -> (r: Result<
        Option<ClientLoginAction>,
        SocketLoginError,
    >)
        requires
            frame_wf(frame@),
        ensures
            match client_step_spec(*old(self), frame@) {
                Ok((st2, act)) => r matches Ok(a) && *final(self) == st2 && action_matches(a, act),
                Err(e) => r matches Err(e2) && e2 == e && *final(self) == *old(self),
            },
    {
        let mut frame = frame;
        let id = match frame.id() {
            Ok(id) => id,
            Err(e) => {
                return Err(SocketLoginError::Io(e));
            },
        };
        match (self.state, id) {
            (State::Handshaking, 0x00) => {
                let h = match frame.decode::<Handshake>() {
                    Ok(h) => h,
                    Err(e) => {
                        return Err(SocketLoginError::Io(e));
                    },
                };
                self.state = if matches!(h.next_state, State::Login) {
                    State::Login
                } else {
                    State::Status
                };
                self.protocol = Some(h.protocol.0);
                self.awaiting_encryption = false;
                Ok(None)
            },
            (State::Status, 0x00) => {
                match frame.decode::<StatusRequest>() {
                    Ok(_) => Ok(Some(ClientLoginAction::SendStatusResponse)),
                    Err(e) => Err(SocketLoginError::Io(e)),
                }
            },
            (State::Status, 0x01) => {
                match frame.decode::<Ping>() {
                    Ok(p) => Ok(Some(ClientLoginAction::SendPong(p.payload))),
                    Err(e) => Err(SocketLoginError::Io(e)),
                }
            },
            (State::Login, 0x00) => {
                match frame.decode::<LoginStart>() {
                    Ok(l) => Ok(Some(ClientLoginAction::AuthStart(l.name))),
                    Err(e) => Err(SocketLoginError::Io(e)),
                }
            },
            (State::Login, 0x01) => {
                if !self.awaiting_encryption {
                    return Err(SocketLoginError::AuthPluginDidNotRequestEncryption);
                }
                match frame.decode::<EncryptionResponse>() {
                    Ok(res) => {
                        self.awaiting_encryption = false;
                        Ok(Some(ClientLoginAction::VerifyEncryption(res)))
                    },
                    Err(e) => Err(SocketLoginError::Io(e)),
                }
            },
            (st, id) => Err(SocketLoginError::IncorrectStateIdCombo(st, id)),
        }
    }

    /// Records that an encryption challenge went out, so that the next
    /// encryption response is expected.
    pub fn encryption_requested(&mut self)
        requires
            old(self).state == State::Login,
        ensures
            *final(self) == (ClientLogin { awaiting_encryption: true, ..*old(self) }),
    {
        self.awaiting_encryption = true;
    }

    /// Builds the handover record once the provider accepted the user.
    /// Only a connection past its handshake can get here, so the protocol
    /// version is known.
    pub fn logged_in(&self, username: String, uuid: String) -> (r: LoggedInInfo)
        requires
            self.protocol is Some,
        ensures
            r.username == username,
            r.uuid == uuid,
            Some(r.protocol) == self.protocol,
    {
        LoggedInInfo { username, uuid, protocol: *self.protocol.as_ref().unwrap() }
    }
}

/// Why the backend-side login driver refused a backend.
#[derive(Debug)]
pub enum ServerConnectionError {
    /// The codec failed on the backend's bytes.
    Io(CodecError),
    /// The backend demanded client encryption, which the proxy cannot relay.
    ServerIsInOnlineMode,
    /// A packet id that has no meaning during backend login.
    IncorrectStateIdCombo(State, i32),
    /// The backend kicked the user with this reason.
    Disconnect(String),
    /// The backend confirmed login under a different identity.
    BadLoginSuccess(LoginSuccess),
    /// The backend finished login without having negotiated exactly the
    /// proxy's threshold.
    BadCompressionThreshold(Option<i32>),
}

/// The mathematical mirror of `ServerConnectionError`.
pub enum ServerConnectionErrorV {
    Io(CodecError),
    ServerIsInOnlineMode,
    IncorrectStateIdCombo(State, i32),
    Disconnect(Seq<char>),
    BadLoginSuccess((Seq<char>, Seq<char>)),
    BadCompressionThreshold(Option<i32>),
}

impl View for ServerConnectionError {
    type V = ServerConnectionErrorV;

    open spec fn view(&self) -> ServerConnectionErrorV {
        match self {
            ServerConnectionError::Io(e) => ServerConnectionErrorV::Io(*e),
            ServerConnectionError::ServerIsInOnlineMode => {
                ServerConnectionErrorV::ServerIsInOnlineMode
            },
            ServerConnectionError::IncorrectStateIdCombo(st, id) => {
                ServerConnectionErrorV::IncorrectStateIdCombo(*st, *id)
            },
            ServerConnectionError::Disconnect(reason) => {
                ServerConnectionErrorV::Disconnect(reason@)
            },
            ServerConnectionError::BadLoginSuccess(s) => ServerConnectionErrorV::BadLoginSuccess(
                s@,
            ),
            ServerConnectionError::BadCompressionThreshold(t) => {
                ServerConnectionErrorV::BadCompressionThreshold(*t)
            },
        }
    }
}

/// The backend-side login driver's memory between frames: the compression
/// threshold the backend has negotiated so far.
#[derive(Debug, Clone, Copy, PartialEq, Eq, Structural)]
pub struct BackendLogin {
    pub compression: Option<i32>,
}

/// The transition relation of the backend login state machine: the new
/// state and whether login completed, or the error that refuses the
/// backend. Completion demands that the negotiated threshold equal exactly
/// the proxy's.
pub open spec fn backend_step_spec(st: BackendLogin, f: FrameView) -> Result<
    (BackendLogin, bool),
    ServerConnectionErrorV,
> {
    match frame_id_result(f) {
        Err(e) => Err(ServerConnectionErrorV::Io(e)),
        Ok(id) => if id == 0x00 {
            match frame_decode::<Disconnect>(f) {
                Err(e) => Err(ServerConnectionErrorV::Io(e)),
                Ok(reason) => Err(ServerConnectionErrorV::Disconnect(reason)),
            }
        } else if id == 0x01 {
            Err(ServerConnectionErrorV::ServerIsInOnlineMode)
        } else if id == 0x02 {
            match frame_decode::<LoginSuccess>(f) {
                Err(e) => Err(ServerConnectionErrorV::Io(e)),
                Ok(_) => if st.compression == Some(THRESHOLD) {
                    Ok((st, true))
                } else {
                    Err(ServerConnectionErrorV::BadCompressionThreshold(st.compression))
                },
            }
        } else if id == 0x03 {
            match frame_decode::<SetCompression>(f) {
                Err(e) => Err(ServerConnectionErrorV::Io(e)),
                Ok(threshold) => Ok((BackendLogin { compression: Some(threshold) }, false)),
            }
        } else {
            Err(ServerConnectionErrorV::IncorrectStateIdCombo(State::Login, id))
        },
    }
}

impl BackendLogin {
    /// A freshly dialed backend: no compression negotiated yet.
    pub fn new() -> (r: BackendLogin)
        ensures
            r == (BackendLogin { compression: None::<i32> }),
    {
        BackendLogin { compression: None }
    }

    /// Feeds one backend frame to the state machine: exactly the transition
    /// `backend_step_spec` prescribes. Returns true when the backend
    /// confirmed login under the required threshold.
    pub fn step(&mut self, frame: MaybeCompressed) -> (r: Result<bool, ServerConnectionError>)
        requires
            frame_wf(frame@),
        ensures
            match backend_step_spec(*old(self), frame@) {
                Ok((st2, done)) => r matches Ok(d) && d == done && *final(self) == st2,
                Err(e) => r matches Err(e2) && e2@ == e && *final(self) == *old(self),
            },
    {
        let mut frame = frame;
        let id = match frame.id() {
            Ok(id) => id,
            Err(e) => {
                return Err(ServerConnectionError::Io(e));
            },
        };
        if id == 0x00 {
            match frame.decode::<Disconnect>() {
                Ok(d) => Err(ServerConnectionError::Disconnect(d.reason)),
                Err(e) => Err(ServerConnectionError::Io(e)),
            }
        } else if id == 0x01 {
            Err(ServerConnectionError::ServerIsInOnlineMode)
        } else if id == 0x02 {
            match frame.decode::<LoginSuccess>() {
                Ok(_) => {
                    let ok = match &self.compression {
                        Some(t) => *t == THRESHOLD,
                        None => false,
                    };
                    if ok {
                        Ok(true)
                    } else {
                        Err(ServerConnectionError::BadCompressionThreshold(self.compression))
                    }
                },
                Err(e) => Err(ServerConnectionError::Io(e)),
            }
        } else if id == 0x03 {
            match frame.decode::<SetCompression>() {
                Ok(sc) => {
                    self.compression = Some(sc.threshold.0);
                    Ok(false)
                },
                Err(e) => Err(ServerConnectionError::Io(e)),
            }
        } else {
            Err(ServerConnectionError::IncorrectStateIdCombo(State::Login, id))
        }
    }
}

/// The bytes the backend-side driver sends the moment a backend is dialed:
/// a handshake that selects login, with the target's virtual-host fields,
/// followed by the login start with the user's name. Nothing is compressed
/// yet.
pub open spec fn hello_bytes(
    protocol: i32,
    host: Seq<char>,
    port: i16,
    name: Seq<char>,
) -> Seq<u8> {
    crate::frame::plain_bytes(
        crate::wire::varint_enc(0) + (crate::wire::varint_enc(crate::wire::u32_of_i32(protocol))
            + crate::wire::string_enc(host) + crate::wire::be16_enc(port)
            + crate::wire::varint_enc(2)),
    ) + crate::frame::plain_bytes(crate::wire::varint_enc(0) + crate::wire::string_enc(name))
}

/// Serializes the handshake and login start that replay the user towards a
/// backend.
pub fn backend_hello(info: &LoggedInInfo, target: &TargetServer) -> (r: Result<
    Vec<u8>,
    CodecError,
>)
    requires
        info.username@.len() <= 16,
        target.handshake_address@.len() <= 255,
    ensures
        r matches Ok(v) && v@ == hello_bytes(
            info.protocol,
            target.handshake_address@,
            target.handshake_port,
            info.username@,
        ),
{
    let handshake = Handshake {
        protocol: crate::packets::VarInt(info.protocol),
        address: target.handshake_address.clone(),
        port: target.handshake_port,
        next_state: State::Login,
    };
    let login_start = LoginStart { name: info.username.clone() };
    let mut out: Vec<u8> = Vec::new();
    proof {
        crate::wire::lemma_encode_utf8_len(target.handshake_address@);
        crate::wire::lemma_encode_utf8_len(info.username@);
        crate::wire::lemma_u32_of_nonneg(0);
        crate::wire::lemma_u32_of_nonneg(2);
        assert(crate::wire::varint_enc(crate::wire::u32_of_i32(0)).len() == 1);
        crate::wire::lemma_varint_enc_len5(crate::wire::u32_of_i32(info.protocol));
        crate::wire::lemma_varint_enc_len5(
            vstd::utf8::encode_utf8(target.handshake_address@).len(),
        );
        crate::wire::lemma_varint_enc_len5(vstd::utf8::encode_utf8(info.username@).len());
    }
    match crate::frame::write_packet(&mut out, None, &handshake) {
        Ok(()) => {},
        Err(_) => {
            proof {
                assert(false);
            }
            return Err(CodecError::Io);
        },
    }
    match crate::frame::write_packet(&mut out, None, &login_start) {
        Ok(()) => {},
        Err(_) => {
            proof {
                assert(false);
            }
            return Err(CodecError::Io);
        },
    }
    proof {
        assert(out@ =~= hello_bytes(
            info.protocol,
            target.handshake_address@,
            target.handshake_port,
            info.username@,
        ));
    }
    Ok(out)
}

/// The bytes that confirm login to the client, sent exactly once, after the
/// first backend accepted the user and before the first pump run: the
/// threshold announcement travels uncompressed, and the login success
/// travels under the newly active threshold (its body is far below it, so
/// it carries the zero marker).
pub open spec fn confirm_bytes(uuid: Seq<char>, name: Seq<char>) -> Seq<u8> {
    crate::frame::plain_bytes(
        crate::wire::varint_enc(3) + crate::wire::varint_enc(THRESHOLD as nat),
    ) + crate::frame::marker0_bytes(
        crate::wire::varint_enc(2) + crate::wire::string_enc(uuid) + crate::wire::string_enc(name),
    )
}

/// Serializes the one-time login confirmation: the threshold announcement,
/// then the login success.
pub fn login_confirmation(info: &LoggedInInfo) -> (r: Result<Vec<u8>, CodecError>)
    requires
        info.uuid@.len() <= 36,
        info.username@.len() <= 16,
    ensures
        r matches Ok(v) && v@ == confirm_bytes(info.uuid@, info.username@),
{
    let mut out: Vec<u8> = Vec::new();
    proof {
        crate::wire::lemma_encode_utf8_len(info.uuid@);
        crate::wire::lemma_encode_utf8_len(info.username@);
        crate::wire::lemma_u32_of_nonneg(2);
        crate::wire::lemma_u32_of_nonneg(3);
        crate::wire::lemma_u32_of_nonneg(THRESHOLD);
        crate::wire::lemma_varint_enc_len5(crate::wire::u32_of_i32(THRESHOLD));
        crate::wire::lemma_varint_enc_len5(vstd::utf8::encode_utf8(info.uuid@).len());
        crate::wire::lemma_varint_enc_len5(vstd::utf8::encode_utf8(info.username@).len());
    }
    match crate::frame::write_packet(
        &mut out,
        None,
        &SetCompression { threshold: crate::packets::VarInt(THRESHOLD) },
    ) {
        Ok(()) => {},
        Err(_) => {
            proof {
                assert(false);
            }
            return Err(CodecError::Io);
        },
    }
    let success = LoginSuccess { uuid: info.uuid.clone(), username: info.username.clone() };
    match crate::frame::write_packet(&mut out, Some(THRESHOLD), &success) {
        Ok(()) => {},
        Err(_) => {
            proof {
                assert(false);
            }
            return Err(CodecError::Io);
        },
    }
    proof {
        assert(out@ =~= confirm_bytes(info.uuid@, info.username@));
    }
    Ok(out)
}

} // verus!
