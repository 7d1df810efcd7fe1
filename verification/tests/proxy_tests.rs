use mcproxy::auth::{
    auth_from_has_joined, minecraft_hex_digest, parse_has_joined, AuthError, AuthPlugin,
    EncryptionStartResult, MojangAuthPlugin, OfflineAuthPlugin,
};
use mcproxy::frame::{read_packet, write_packet, MaybeCompressed};
use mcproxy::login::{
    backend_hello, login_confirmation, BackendLogin, ClientLogin, ClientLoginAction, LoggedInInfo,
    ServerConnectionError, SocketLoginError, THRESHOLD,
};
use mcproxy::packets::{
    ChatRequest, Disconnect, EncryptionRequest, Handshake, LoginStart, LoginSuccess, Packet,
    PacketData, Ping, Pong, SetCompression, State, StatusRequest, StatusResponse, VarInt,
};
use mcproxy::pump::{
    on_backend_connected, on_pump_exit, pump_client_frame, FixedTarget, Plugin, PumpExit,
    PumpOutcome, SessionContinue, TargetServer,
};
use mcproxy::wire::Reader;
use mcproxy::CodecError;

fn read_one(bytes: &[u8], compression: Option<i32>) -> MaybeCompressed {
    let mut r = Reader::new(bytes);
    read_packet(&mut r, compression).unwrap()
}

fn frame_of<T: Packet>(packet: &T, compression: Option<i32>) -> MaybeCompressed {
    let mut wire: Vec<u8> = Vec::new();
    write_packet(&mut wire, compression, packet).unwrap();
    read_one(&wire, compression)
}

#[test]
fn status_ping_dance() {
    // handshake protocol=340, host "localhost", port 0x63dd, next_state=1
    let handshake_bytes = [
        0x10u8, 0x00, 0xd4, 0x02, 0x09, 0x6c, 0x6f, 0x63, 0x61, 0x6c, 0x68, 0x6f, 0x73, 0x74,
        0x63, 0xdd, 0x01,
    ];
    let status_request_bytes = [0x01u8, 0x00];
    let ping_bytes = [0x09u8, 0x01, 0x01, 0x02, 0x03, 0x04, 0x05, 0x06, 0x07, 0x08];

    let mut driver = ClientLogin::new();
    let act = driver.step(read_one(&handshake_bytes, None)).unwrap();
    assert!(act.is_none());
    assert!(matches!(driver.state, State::Status));
    assert_eq!(driver.protocol, Some(340));

    let act = driver.step(read_one(&status_request_bytes, None)).unwrap();
    assert!(matches!(act, Some(ClientLoginAction::SendStatusResponse)));
    let response = StatusResponse { response: "{\"description\":{\"text\":\"hi\"}}".to_string() };
    let mut out: Vec<u8> = Vec::new();
    write_packet(&mut out, None, &response).unwrap();
    let reread: StatusResponse = read_one(&out, None).decode().unwrap();
    assert_eq!(reread.response, response.response);

    let act = driver.step(read_one(&ping_bytes, None)).unwrap();
    let payload = match act {
        Some(ClientLoginAction::SendPong(p)) => p,
        other => panic!("expected a pong action, got {:?}", other.is_some()),
    };
    assert_eq!(payload, 0x0102030405060708);
    let mut pong_out: Vec<u8> = Vec::new();
    write_packet(&mut pong_out, None, &Pong { payload }).unwrap();
    // the echo is byte-identical to the ping that came in
    assert_eq!(pong_out.as_slice(), &ping_bytes);
}

#[test]
fn offline_login_handover() {
    let mut driver = ClientLogin::new();
    let handshake = Handshake {
        protocol: VarInt(340),
        address: "localhost".to_string(),
        port: 25566,
        next_state: State::Login,
    };
    let act = driver.step(frame_of(&handshake, None)).unwrap();
    assert!(act.is_none());
    assert!(matches!(driver.state, State::Login));

    let login_start = LoginStart { name: "Alex".to_string() };
    let act = driver.step(frame_of(&login_start, None)).unwrap();
    let name = match act {
        Some(ClientLoginAction::AuthStart(name)) => name,
        _ => panic!("expected an auth start"),
    };
    assert_eq!(name, "Alex");

    let auth = OfflineAuthPlugin;
    let succeeded = match auth.encryption_start(name) {
        EncryptionStartResult::Skip(s) => s,
        EncryptionStartResult::BeginEncryption(_, _) => panic!("offline never challenges"),
    };
    assert_eq!(succeeded.username, "Alex");
    assert_eq!(succeeded.uuid, "36532b5e-c442-3dbb-a24c-c7e55d0f979a");

    let info = driver.logged_in(succeeded.username, succeeded.uuid);
    assert_eq!(info.protocol, 340);

    // the proxy announces its threshold, then confirms login compressed
    let mut to_client: Vec<u8> = Vec::new();
    write_packet(&mut to_client, None, &SetCompression { threshold: VarInt(THRESHOLD) }).unwrap();
    assert_eq!(to_client, vec![0x03, 0x03, 0x80, 0x02]);
    let mut success_out: Vec<u8> = Vec::new();
    write_packet(
        &mut success_out,
        Some(THRESHOLD),
        &LoginSuccess { uuid: info.uuid.clone(), username: info.username.clone() },
    )
    .unwrap();
    let success: LoginSuccess = read_one(&success_out, Some(THRESHOLD)).decode().unwrap();
    assert_eq!(success.username, "Alex");
    assert_eq!(success.uuid, "36532b5e-c442-3dbb-a24c-c7e55d0f979a");

    // the backend is greeted with the replayed handshake and login start
    let target = TargetServer {
        addr: "127.0.0.1:25565".to_string(),
        handshake_address: "backend".to_string(),
        handshake_port: 25565,
    };
    let hello = backend_hello(&info, &target).unwrap();
    let mut r = Reader::new(&hello);
    let hs: Handshake = read_packet(&mut r, None).unwrap().decode().unwrap();
    assert_eq!(hs.protocol.0, 340);
    assert_eq!(hs.address, "backend");
    assert_eq!(hs.port, 25565);
    assert!(matches!(hs.next_state, State::Login));
    let ls: LoginStart = read_packet(&mut r, None).unwrap().decode().unwrap();
    assert_eq!(ls.name, "Alex");
    assert_eq!(r.remaining_len(), 0);
}

#[test]
fn backend_wrong_threshold_rejected() {
    let mut backend = BackendLogin::new();
    let done = backend.step(frame_of(&SetCompression { threshold: VarInt(512) }, None)).unwrap();
    assert!(!done);
    assert_eq!(backend.compression, Some(512));
    let success = LoginSuccess { uuid: "u".to_string(), username: "Alex".to_string() };
    let r = backend.step(frame_of(&success, Some(512)));
    match r {
        Err(ServerConnectionError::BadCompressionThreshold(Some(512))) => {},
        _ => panic!("expected the threshold rejection"),
    }
}

#[test]
fn backend_right_threshold_accepted() {
    let mut backend = BackendLogin::new();
    let done = backend.step(frame_of(&SetCompression { threshold: VarInt(256) }, None)).unwrap();
    assert!(!done);
    let success = LoginSuccess { uuid: "u".to_string(), username: "Alex".to_string() };
    let done = backend.step(frame_of(&success, Some(256))).unwrap();
    assert!(done);
}

#[test]
fn backend_encryption_request_rejected() {
    let mut backend = BackendLogin::new();
    let req = EncryptionRequest {
        public: vec![1, 2, 3],
        server_id: String::new(),
        verify_token: vec![4, 5, 6, 7],
    };
    let r = backend.step(frame_of(&req, None));
    assert!(matches!(r, Err(ServerConnectionError::ServerIsInOnlineMode)));
}

#[test]
fn backend_disconnect_reported() {
    let mut backend = BackendLogin::new();
    let r = backend.step(frame_of(&Disconnect { reason: "full".to_string() }, None));
    match r {
        Err(ServerConnectionError::Disconnect(reason)) => assert_eq!(reason, "full"),
        _ => panic!("expected the disconnect"),
    }
}

#[test]
fn backend_unknown_packet_rejected() {
    let mut backend = BackendLogin::new();
    let frame = MaybeCompressed::Plain { packet_id: 0x09, data: Vec::new() };
    let r = backend.step(frame);
    assert!(matches!(r, Err(ServerConnectionError::IncorrectStateIdCombo(State::Login, 0x09))));
}

#[test]
fn login_start_with_seventeen_characters_rejected() {
    let mut wire: Vec<u8> = Vec::new();
    // frame: total 19, id 0, string length 17, seventeen names bytes
    wire.push(19);
    wire.push(0x00);
    wire.push(17);
    for _ in 0..17 {
        wire.push(b'A');
    }
    let frame = read_one(&wire, None);
    let r: Result<LoginStart, CodecError> = frame.decode();
    assert!(matches!(r, Err(CodecError::LengthExceedsLimit)));
}

#[test]
fn encryption_response_without_challenge_rejected() {
    let mut driver = ClientLogin::new();
    let handshake = Handshake {
        protocol: VarInt(340),
        address: "h".to_string(),
        port: 1,
        next_state: State::Login,
    };
    driver.step(frame_of(&handshake, None)).unwrap();
    let res = mcproxy::packets::EncryptionResponse {
        shared_secret: vec![0; 16],
        verify_token: vec![0; 4],
    };
    let r = driver.step(frame_of(&res, None));
    assert!(matches!(r, Err(SocketLoginError::AuthPluginDidNotRequestEncryption)));
}

#[test]
fn unknown_state_id_combination_rejected() {
    let mut driver = ClientLogin::new();
    let frame = MaybeCompressed::Plain { packet_id: 0x07, data: Vec::new() };
    let r = driver.step(frame);
    assert!(matches!(r, Err(SocketLoginError::IncorrectStateIdCombo(State::Handshaking, 0x07))));
}

#[test]
fn in_band_migration_command() {
    let chat = ChatRequest { message: "/proxy-goto 10.0.0.2:25565".to_string() };
    let frame = frame_of(&chat, Some(THRESHOLD));
    match pump_client_frame(frame).unwrap() {
        PumpOutcome::Migrate(t) => {
            assert_eq!(t.addr, "10.0.0.2:25565");
            assert_eq!(t.handshake_address, "test");
            assert_eq!(t.handshake_port, 25565);
        },
        _ => panic!("expected a migration"),
    }
}

#[test]
fn proxy_ping_answered_not_forwarded() {
    let chat = ChatRequest { message: "/proxy-ping".to_string() };
    let frame = frame_of(&chat, Some(THRESHOLD));
    assert!(matches!(pump_client_frame(frame).unwrap(), PumpOutcome::Pong));
}

#[test]
fn ordinary_chat_forwarded_byte_identically() {
    for threshold in [None, Some(THRESHOLD)] {
        let chat = ChatRequest { message: "hello everyone".to_string() };
        let mut wire: Vec<u8> = Vec::new();
        write_packet(&mut wire, threshold, &chat).unwrap();
        let frame = read_one(&wire, threshold);
        match pump_client_frame(frame).unwrap() {
            PumpOutcome::Forward(g) => {
                let mut out: Vec<u8> = Vec::new();
                g.write(threshold, &mut out).unwrap();
                assert_eq!(out, wire);
            },
            _ => panic!("expected a forward"),
        }
    }
}

#[test]
fn unknown_compressed_frame_passes_through_untouched() {
    // a compressed play packet of an id the proxy does not know
    let payload: Vec<u8> = (0..2048u32).map(|i| (i % 251) as u8).collect();
    let original = MaybeCompressed::Plain { packet_id: 0x20, data: payload };
    let mut wire: Vec<u8> = Vec::new();
    original.write(Some(THRESHOLD), &mut wire).unwrap();
    let frame = read_one(&wire, Some(THRESHOLD));
    assert_eq!(frame.cheap_id(), None);
    match pump_client_frame(frame).unwrap() {
        PumpOutcome::Forward(g) => {
            assert_eq!(g.cheap_id(), None);
            let mut out: Vec<u8> = Vec::new();
            g.write(Some(THRESHOLD), &mut out).unwrap();
            assert_eq!(out, wire);
        },
        _ => panic!("expected a forward"),
    }
}

#[test]
fn minecraft_digest_known_vectors() {
    let cases: Vec<(&[u8], &str)> = vec![
        (b"Notch", "4ed1f46bbe04bc756bcb17c0c7ce3e4632f06a48"),
        (b"jeb_", "-7c9d5b0044c130109a5d7b5fb5c317c02b4e28c1"),
        (b"simon", "88e16a1019277b15d58faf0541e11910eb756f6"),
    ];
    for (input, expected) in cases {
        let mut h = <sha1::Sha1 as sha1::Digest>::new();
        sha1::Digest::update(&mut h, input);
        let digest: Vec<u8> = sha1::Digest::finalize(h).to_vec();
        assert_eq!(minecraft_hex_digest(&digest), expected);
    }
}

#[test]
fn mojang_rsa_challenge_round_trip() {
    let plugin = MojangAuthPlugin::with_generated_keypair().unwrap();
    let (req, data) = match plugin.encryption_start("Steve".to_string()) {
        EncryptionStartResult::BeginEncryption(req, data) => (req, data),
        EncryptionStartResult::Skip(_) => panic!("the online provider always challenges"),
    };
    assert_eq!(req.server_id, "");
    assert_eq!(req.verify_token.len(), 4);

    let (n, e) = rsa_der::public_key_from_der(&req.public).unwrap();
    let public = rsa::RsaPublicKey::new(
        rsa::BigUint::from_bytes_be(&n),
        rsa::BigUint::from_bytes_be(&e),
    )
    .unwrap();
    let mut rng = rand::thread_rng();
    let shared_secret: Vec<u8> = (1u8..=16).collect();
    let response = mcproxy::packets::EncryptionResponse {
        shared_secret: public.encrypt(&mut rng, rsa::Pkcs1v15Encrypt, &shared_secret).unwrap(),
        verify_token: public.encrypt(&mut rng, rsa::Pkcs1v15Encrypt, &req.verify_token).unwrap(),
    };
    let query = plugin.encryption_response_query(data, &response).unwrap();
    assert_eq!(query.username, "Steve");

    // the server id is the signed digest of the secret and the public key
    let mut h = <sha1::Sha1 as sha1::Digest>::new();
    sha1::Digest::update(&mut h, &shared_secret);
    sha1::Digest::update(&mut h, &req.public);
    let digest: Vec<u8> = sha1::Digest::finalize(h).to_vec();
    assert_eq!(query.server_id, minecraft_hex_digest(&digest));
}

#[test]
fn mojang_bad_verify_token_rejected() {
    let plugin = MojangAuthPlugin::with_generated_keypair().unwrap();
    let expected = vec![1, 2, 3, 4];
    let got = vec![1, 2, 3, 5];
    let secret: Vec<u8> = vec![0; 16];
    let r = plugin.check_encryption_response("Steve".to_string(), &expected, &got, &secret);
    assert!(matches!(r, Err(AuthError::BadVerifyToken)));
}

#[test]
fn mojang_bad_shared_secret_rejected() {
    let plugin = MojangAuthPlugin::with_generated_keypair().unwrap();
    let token = vec![1, 2, 3, 4];
    let secret: Vec<u8> = vec![0; 15];
    let r = plugin.check_encryption_response("Steve".to_string(), &token, &token, &secret);
    assert!(matches!(r, Err(AuthError::BadSharedSecret)));
}

#[test]
fn mojang_undecryptable_response_rejected() {
    let plugin = MojangAuthPlugin::with_generated_keypair().unwrap();
    let (_, data) = match plugin.encryption_start("Steve".to_string()) {
        EncryptionStartResult::BeginEncryption(req, data) => (req, data),
        EncryptionStartResult::Skip(_) => panic!("the online provider always challenges"),
    };
    let response = mcproxy::packets::EncryptionResponse {
        shared_secret: vec![1, 2, 3],
        verify_token: vec![4, 5, 6],
    };
    let r = plugin.encryption_response_query(data, &response);
    assert!(matches!(r, Err(AuthError::Rsa(_))));
}

#[test]
fn has_joined_response_parsed() {
    let body = "{\"id\":\"d6a3353704aa45beb12baf138b1ab81f\",\"name\":\"Steve\"}";
    let fields = parse_has_joined(body).unwrap();
    assert_eq!(fields.id, "d6a3353704aa45beb12baf138b1ab81f");
    assert_eq!(fields.name, "Steve");
    let auth = auth_from_has_joined(fields).unwrap();
    assert_eq!(auth.username, "Steve");
    assert_eq!(auth.uuid, "d6a33537-04aa-45be-b12b-af138b1ab81f");
}

#[test]
fn has_joined_garbage_rejected() {
    assert!(matches!(parse_has_joined("not json"), Err(AuthError::Transport(_))));
    assert!(matches!(parse_has_joined("{\"name\":\"x\"}"), Err(AuthError::Transport(_))));
    let short = parse_has_joined("{\"id\":\"abc\",\"name\":\"x\"}").unwrap();
    assert!(matches!(auth_from_has_joined(short), Err(AuthError::Transport(_))));
}

#[test]
fn offline_provider_never_handles_responses() {
    let auth = OfflineAuthPlugin;
    let res = mcproxy::packets::EncryptionResponse {
        shared_secret: Vec::new(),
        verify_token: Vec::new(),
    };
    let r = auth.encryption_response(mcproxy::auth::NoAuthData, res);
    assert!(matches!(r, Err(AuthError::Unsupported)));
}

#[test]
fn session_confirms_login_exactly_once() {
    let mut first = true;
    assert!(on_backend_connected(&mut first));
    assert!(!on_backend_connected(&mut first));
    assert!(!on_backend_connected(&mut first));
}

#[test]
fn pump_exits_drive_the_session() {
    let here = TargetServer {
        addr: "10.0.0.1:25565".to_string(),
        handshake_address: "a".to_string(),
        handshake_port: 25565,
    };
    let there = TargetServer {
        addr: "10.0.0.2:25565".to_string(),
        handshake_address: "test".to_string(),
        handshake_port: 25565,
    };
    match on_pump_exit(PumpExit::BackendClosed, here.clone()) {
        SessionContinue::Reconnect(t) => assert_eq!(t.addr, "10.0.0.1:25565"),
        SessionContinue::End => panic!("a closed backend must reconnect"),
    }
    assert!(matches!(
        on_pump_exit(PumpExit::ClientClosed, here.clone()),
        SessionContinue::End
    ));
    match on_pump_exit(PumpExit::AnotherServer(there), here) {
        SessionContinue::Reconnect(t) => assert_eq!(t.addr, "10.0.0.2:25565"),
        SessionContinue::End => panic!("a migration must reconnect"),
    }
}

#[test]
fn login_confirmation_decodes_back() {
    let info = LoggedInInfo {
        username: "Alex".to_string(),
        uuid: "36532b5e-c442-3dbb-a24c-c7e55d0f979a".to_string(),
        protocol: 340,
    };
    let bytes = login_confirmation(&info).unwrap();
    let mut r = Reader::new(&bytes);
    let sc: SetCompression = read_packet(&mut r, None).unwrap().decode().unwrap();
    assert_eq!(sc.threshold.0, 256);
    let ls: LoginSuccess = read_packet(&mut r, Some(256)).unwrap().decode().unwrap();
    assert_eq!(ls.username, "Alex");
    assert_eq!(ls.uuid, "36532b5e-c442-3dbb-a24c-c7e55d0f979a");
    assert_eq!(r.remaining_len(), 0);
}

#[test]
fn fixed_router_answers_with_its_target() {
    let router = FixedTarget {
        target: TargetServer {
            addr: "10.0.0.9:25565".to_string(),
            handshake_address: "lobby".to_string(),
            handshake_port: 25565,
        },
    };
    let t = router.get_initial_target().unwrap();
    assert_eq!(t.addr, "10.0.0.9:25565");
    assert_eq!(t.handshake_address, "lobby");
    assert_eq!(t.handshake_port, 25565);
}

#[test]
fn logged_in_info_reaches_pump_unchanged() {
    let info = LoggedInInfo {
        username: "Alex".to_string(),
        uuid: "36532b5e-c442-3dbb-a24c-c7e55d0f979a".to_string(),
        protocol: 340,
    };
    let keep = info.clone();
    assert_eq!(keep.username, info.username);
    assert_eq!(keep.protocol, 340);
}
