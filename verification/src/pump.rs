//! The pump's decision logic: which way one client frame goes once both
//! sides are in play. Backend frames always pass through opaquely; client
//! frames are inspected only when their id is already known to be the chat
//! id on an uncompressed body, so nothing on the hot path ever
//! decompresses.

use vstd::prelude::*;
use vstd::string::StrSliceExecFns;

use crate::frame::{frame_decode, spec_cheap_id, frame_wf, FrameView, MaybeCompressed};
use crate::packets::{ChatRequest, Packet, PacketData};
use crate::wire::{lemma_varint_round_trip, Reader};
use crate::CodecError;

verus! {

/// A backend the proxy can dial: the address to connect to, and the
/// virtual-host name and port to put in the handshake.
#[derive(Debug, Clone)]
pub struct TargetServer {
    pub addr: String,
    pub handshake_address: String,
    pub handshake_port: i16,
}

/// The routing capability: where a freshly logged-in user goes first.
/// `None` refuses the connection.
pub trait Plugin {
    fn get_initial_target(&self) -> Option<TargetServer>;
}

/// A router that always answers with the same backend.
pub struct FixedTarget {
    pub target: TargetServer,
}

impl Plugin for FixedTarget {
    fn get_initial_target(&self) -> Option<TargetServer> {
        Some(self.target.clone())
    }
}

/// The chat command that asks the proxy to answer with a pong.
pub open spec fn is_proxy_ping(msg: Seq<char>) -> bool {
    msg == "/proxy-ping"@
}

/// The chat command that asks the proxy to migrate; what follows the space
/// names the new backend.
pub open spec fn is_proxy_goto(msg: Seq<char>) -> bool {
    msg.len() >= 12 && msg.subrange(0, 12) == "/proxy-goto "@
}

/// The backend address a migration command names.
pub open spec fn goto_target(msg: Seq<char>) -> Seq<char> {
    msg.skip(12)
}

/// Where one client frame goes.
pub enum PumpOutcome {
    /// Pass this very frame on to the backend.
    Forward(MaybeCompressed),
    /// Answer the client with the pong chat; forward nothing.
    Pong,
    /// Close the current backend and dial this one.
    Migrate(TargetServer),
}

/// The mathematical mirror of `PumpOutcome`.
pub enum PumpOutcomeV {
    Forward,
    Pong,
    Migrate(Seq<char>),
}

/// The pump's decision for one client frame: a frame whose id is not
/// already known, or known and not the chat id, passes through untouched;
/// a known chat must decode, and its message selects pong, migration or
/// pass-through.
pub open spec fn pump_decision(f: FrameView) -> Result<PumpOutcomeV, CodecError> {
    match spec_cheap_id(f) {
        None => Ok(PumpOutcomeV::Forward),
        Some(id) => if id != ChatRequest::spec_id() {
            Ok(PumpOutcomeV::Forward)
        } else {
            match frame_decode::<ChatRequest>(f) {
                Err(e) => Err(e),
                Ok(msg) => if is_proxy_ping(msg) {
                    Ok(PumpOutcomeV::Pong)
                } else if is_proxy_goto(msg) {
                    Ok(PumpOutcomeV::Migrate(goto_target(msg)))
                } else {
                    Ok(PumpOutcomeV::Forward)
                },
            }
        },
    }
}

/// Compares two texts character by character.
fn str_eq(a: &str, b: &str) -> (r: bool)
    ensures
        r == (a@ == b@),
{
    let la = a.unicode_len();
    let lb = b.unicode_len();
    if la != lb {
        proof {
            assert(a@.len() != b@.len());
        }
        return false;
    }
    let mut i: usize = 0;
    while i < la
        invariant
            la == a@.len(),
            la == b@.len(),
            i <= la,
            forall|j: int| 0 <= j < i ==> a@[j] == b@[j],
        decreases la - i,
    {
        if a.get_char(i) != b.get_char(i) {
            return false;
        }
        i = i + 1;
    }
    proof {
        assert(a@ =~= b@);
    }
    true
}

/// Decides what to do with one client frame, exactly as `pump_decision`
/// prescribes; a forwarded frame is returned as the very value that came
/// in, so what reaches the backend is byte-for-byte what the client sent.
pub fn pump_client_frame(frame: MaybeCompressed) -> (r: Result<PumpOutcome, CodecError>)
    requires
        frame_wf(frame@),
    ensures
        match r {
            Ok(out) => match pump_decision(frame@) {
                Ok(PumpOutcomeV::Forward) => out matches PumpOutcome::Forward(g) && g == frame,
                Ok(PumpOutcomeV::Pong) => out is Pong,
                Ok(PumpOutcomeV::Migrate(addr)) => out matches PumpOutcome::Migrate(t) && t.addr@
                    == addr && t.handshake_address@ == "test"@ && t.handshake_port == 25565,
                Err(_) => false,
            },
            Err(e) => pump_decision(frame@) == Err::<PumpOutcomeV, CodecError>(e),
        },
{
    let chat_id = ChatRequest::id();
    match frame {
        MaybeCompressed::Plain { packet_id, data } => {
            if packet_id != chat_id {
                return Ok(PumpOutcome::Forward(MaybeCompressed::Plain { packet_id, data }));
            }
            proof {
                lemma_varint_round_trip(packet_id, data@);
                crate::wire::lemma_u32_of_nonneg(packet_id);
                assert((crate::wire::varint_enc(crate::wire::u32_of_i32(packet_id))
                    + data@).skip(crate::wire::varint_enc(
                    crate::wire::u32_of_i32(packet_id),
                ).len() as int) =~= data@);
            }
            let mut rd = Reader::new(data.as_slice());
            let chat = match ChatRequest::read(&mut rd) {
                Ok(c) => c,
                Err(e) => {
                    return Err(e);
                },
            };
            if rd.remaining_len() != 0 {
                return Err(CodecError::TrailingBytes);
            }
            chat_command(chat, MaybeCompressed::Plain { packet_id, data })
        },
        MaybeCompressed::Decompressed { packet_id, body, compressed } => {
            if packet_id != chat_id {
                return Ok(
                    PumpOutcome::Forward(
                        MaybeCompressed::Decompressed { packet_id, body, compressed },
                    ),
                );
            }
            let mut rd = Reader::new(body.as_slice());
            let id_v = match rd.read_varint() {
                Ok(v) => v,
                Err(e) => {
                    return Err(e);
                },
            };
            proof {
                assert(rd.remaining() =~= body@.skip(id_v.size as int));
            }
            let chat = match ChatRequest::read(&mut rd) {
                Ok(c) => c,
                Err(e) => {
                    return Err(e);
                },
            };
            if rd.remaining_len() != 0 {
                return Err(CodecError::TrailingBytes);
            }
            chat_command(chat, MaybeCompressed::Decompressed { packet_id, body, compressed })
        },
        MaybeCompressed::Compressed { full_size, compressed } => {
            Ok(PumpOutcome::Forward(MaybeCompressed::Compressed { full_size, compressed }))
        },
    }
}

/// Why one run of the pump ended, besides an error.
pub enum PumpExit {
    /// The backend closed its side; the session may dial a backend again.
    BackendClosed,
    /// The client closed; the session is over.
    ClientClosed,
    /// The client asked to migrate to this backend.
    AnotherServer(TargetServer),
}

/// What the orchestrator does once a pump run has ended.
pub enum SessionContinue {
    /// Dial this backend and resume the pump with the same client.
    Reconnect(TargetServer),
    /// Close everything: the client is gone.
    End,
}

/// Decides the session's continuation from a pump exit: a closed backend
/// reconnects to the current target, a closed client ends the session, and
/// a migration command retargets. None of these re-runs the client login or
/// confirms login to the client again.
pub fn on_pump_exit(exit: PumpExit, current: TargetServer) -> (r: SessionContinue)
    ensures
        match exit {
            PumpExit::BackendClosed => r matches SessionContinue::Reconnect(t) && t == current,
            PumpExit::ClientClosed => r is End,
            PumpExit::AnotherServer(next) => r matches SessionContinue::Reconnect(t) && t == next,
        },
{
    match exit {
        PumpExit::BackendClosed => SessionContinue::Reconnect(current),
        PumpExit::ClientClosed => SessionContinue::End,
        PumpExit::AnotherServer(next) => SessionContinue::Reconnect(next),
    }
}

/// Notes that a backend is connected and says whether it is the session's
/// first, in which case, and only then, login is confirmed to the client.
pub fn on_backend_connected(first_connection: &mut bool) -> (confirm: bool)
    ensures
        confirm == *old(first_connection),
        *final(first_connection) == false,
{
    let confirm = *first_connection;
    *first_connection = false;
    confirm
}

/// Sorts a decoded client chat into the pump's three outcomes: the two
/// control commands are consumed, anything else is forwarded.
fn chat_command(chat: ChatRequest, frame: MaybeCompressed) -> (r: Result<PumpOutcome, CodecError>)
    ensures
        r matches Ok(out) && (if is_proxy_ping(chat.message@) {
            out is Pong
        } else if is_proxy_goto(chat.message@) {
            out matches PumpOutcome::Migrate(t) && t.addr@ == goto_target(chat.message@)
                && t.handshake_address@ == "test"@ && t.handshake_port == 25565
        } else {
            out matches PumpOutcome::Forward(g) && g == frame
        }),
{
    let msg = chat.message.as_str();
    if str_eq(msg, "/proxy-ping") {
        return Ok(PumpOutcome::Pong);
    }
    let len = msg.unicode_len();
    let prefix_len: usize = 12;
    proof {
        reveal_strlit("/proxy-goto ");
    }
    if len >= prefix_len {
        let prefix = msg.substring_char(0, prefix_len);
        if str_eq(prefix, "/proxy-goto ") {
            let addr = msg.substring_char(prefix_len, len);
            proof {
                assert(addr@ =~= goto_target(chat.message@));
            }
            return Ok(
                PumpOutcome::Migrate(
                    TargetServer {
                        addr: addr.to_owned(),
                        handshake_address: "test".to_owned(),
                        handshake_port: 25565,
                    },
                ),
            );
        }
    }
    Ok(PumpOutcome::Forward(frame))
}

} // verus!
