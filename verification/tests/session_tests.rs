use ic_websocket_gateway::codec::{encode_client_request, encode_ws_open_arguments};
use ic_websocket_gateway::poller::IcWsConnectionUpdate;
use ic_websocket_gateway::session::{
    ClientSession, ClientUpdate, IcWsError, IcWsSessionState, SessionAction, SessionEvent,
};
use ic_websocket_gateway::types::{
    CanisterToClientMessage, CanisterWsOpenArguments, ClientPrincipal, ClientRequest, Envelope,
    EnvelopeContent,
};

fn principal(text: &str) -> ClientPrincipal {
    let p = candid::Principal::from_text(text).unwrap();
    ClientPrincipal::from_bytes(p.as_slice().to_vec())
}

fn open_frame(canister: &ClientPrincipal, sender: &ClientPrincipal, client_nonce: u64) -> Vec<u8> {
    let arg = encode_ws_open_arguments(&CanisterWsOpenArguments { client_nonce });
    let request = ClientRequest {
        envelope: Envelope {
            content: EnvelopeContent::Call {
                nonce: None,
                ingress_expiry: 1_700_000_000_000_000_000,
                sender: sender.clone(),
                canister_id: canister.clone(),
                method_name: "ws_open".as_bytes().to_vec(),
                arg,
            },
            sender_sig: vec![1; 8],
            sender_pubkey: vec![2; 8],
        },
    };
    encode_client_request(&request)
}

fn call_frame(canister: &ClientPrincipal, sender: &ClientPrincipal, arg: Vec<u8>) -> Vec<u8> {
    let request = ClientRequest {
        envelope: Envelope {
            content: EnvelopeContent::Call {
                nonce: Some(vec![7; 16]),
                ingress_expiry: 1_700_000_000_000_000_000,
                sender: sender.clone(),
                canister_id: canister.clone(),
                method_name: "ws_message".as_bytes().to_vec(),
                arg,
            },
            sender_sig: vec![],
            sender_pubkey: vec![],
        },
    };
    encode_client_request(&request)
}

fn canister_message() -> CanisterToClientMessage {
    CanisterToClientMessage {
        key: "gateway_uid_0".as_bytes().to_vec(),
        content: vec![1, 2],
        cert: vec![3],
        tree: vec![4],
    }
}

#[test]
/// A session walks Init to Setup on a valid opening frame, to Open on the
/// first canister message, relays calls while Open, and closes on a client
/// close.
fn session_walks_init_setup_open_closed() {
    let gateway = principal("aaaaa-aa");
    let canister = principal("2chl6-4hpzw-vqaaa-aaaaa-c");
    let sender = principal("ygoe7-xpj6n-24gsd-zksfw-2mywm-xfyop-yvlsp-ctlwa-753xv-wz6rk-uae");

    let (mut session, handshake) = ClientSession::init(1, gateway);
    assert!(!handshake.is_empty());
    assert!(session.canister_id.is_none() && session.client_key.is_none());

    // first client frame: the opening envelope
    let frame = open_frame(&canister, &sender, 5);
    let (change, action) = session
        .update_state(SessionEvent::Client(ClientUpdate::Frame(frame.clone())))
        .unwrap();
    match change {
        Some(IcWsSessionState::Setup(raw)) => assert_eq!(raw, frame),
        _ => panic!("expected the Setup transition"),
    }
    assert!(action.is_none());
    let key = session.client_key.clone().unwrap();
    assert!(key.client_principal == sender);
    assert_eq!(key.client_nonce, 5);
    assert!(session.canister_id.clone().unwrap() == canister);

    // first canister message opens the session and ships a frame
    let (change, action) = session
        .update_state(SessionEvent::Canister(Some(IcWsConnectionUpdate::Message(
            canister_message(),
        ))))
        .unwrap();
    assert!(matches!(change, Some(IcWsSessionState::Open)));
    assert!(matches!(action, Some(SessionAction::SendFrame(_))));

    // while Open, a client call is relayed to the canister, not answered
    let (change, action) = session
        .update_state(SessionEvent::Client(ClientUpdate::Frame(call_frame(
            &canister,
            &sender,
            vec![9, 9],
        ))))
        .unwrap();
    assert!(change.is_none());
    match action {
        Some(SessionAction::SubmitToCanister(c, envelope)) => {
            assert!(c == canister);
            assert!(!envelope.is_empty());
        },
        _ => panic!("expected a submission"),
    }

    // further canister messages stay in Open
    let (change, action) = session
        .update_state(SessionEvent::Canister(Some(IcWsConnectionUpdate::Message(
            canister_message(),
        ))))
        .unwrap();
    assert!(change.is_none());
    assert!(matches!(action, Some(SessionAction::SendFrame(_))));

    // the client closes
    let (change, action) = session
        .update_state(SessionEvent::Client(ClientUpdate::Close))
        .unwrap();
    assert!(matches!(change, Some(IcWsSessionState::Closed)));
    assert!(action.is_none());
}

#[test]
/// A client frame while the session is in Setup is a protocol violation
/// and closes the session.
fn client_frame_in_setup_is_protocol_violation() {
    let canister = principal("2chl6-4hpzw-vqaaa-aaaaa-c");
    let sender = principal("aaaaa-aa");
    let (mut session, _) = ClientSession::init(2, principal("aaaaa-aa"));
    session
        .update_state(SessionEvent::Client(ClientUpdate::Frame(open_frame(&canister, &sender, 0))))
        .unwrap();
    let err = session
        .update_state(SessionEvent::Client(ClientUpdate::Frame(vec![1, 2, 3])))
        .unwrap_err();
    assert!(matches!(err, IcWsError::IcWsProtocol(_)));
    assert!(matches!(session.session_state, IcWsSessionState::Closed));
}

#[test]
/// The first frame must be a call envelope carrying the session-opening
/// arguments; anything else is a protocol violation that closes the
/// session without binding it to a key or canister.
fn invalid_opening_frames_are_rejected() {
    let canister = principal("2chl6-4hpzw-vqaaa-aaaaa-c");
    let sender = principal("aaaaa-aa");

    let mut invalid_frames: Vec<Vec<u8>> = Vec::new();
    // not a client request at all
    invalid_frames.push(vec![0xd9, 0xd9, 0xf7]);
    // a call whose argument is not the opening argument
    invalid_frames.push(call_frame(&canister, &sender, vec![1, 2, 3]));
    // a non-call envelope
    invalid_frames.push(encode_client_request(&ClientRequest {
        envelope: Envelope {
            content: EnvelopeContent::ReadState { sender: sender.clone() },
            sender_sig: vec![],
            sender_pubkey: vec![],
        },
    }));

    for frame in invalid_frames {
        let (mut session, _) = ClientSession::init(3, principal("aaaaa-aa"));
        let err = session
            .update_state(SessionEvent::Client(ClientUpdate::Frame(frame)))
            .unwrap_err();
        assert!(matches!(err, IcWsError::IcWsProtocol(_)));
        assert!(matches!(session.session_state, IcWsSessionState::Closed));
        assert!(session.client_key.is_none());
        assert!(session.canister_id.is_none());
    }

    // a non-binary frame closes the session the same way
    let (mut session, _) = ClientSession::init(3, principal("aaaaa-aa"));
    let err = session
        .update_state(SessionEvent::Client(ClientUpdate::NonBinaryFrame))
        .unwrap_err();
    assert!(matches!(err, IcWsError::IcWsProtocol(_)));
    assert!(matches!(session.session_state, IcWsSessionState::Closed));

    // a fresh session still accepts a valid opening frame
    let (mut session, _) = ClientSession::init(3, principal("aaaaa-aa"));
    let frame = open_frame(&canister, &sender, 1);
    let (change, _) = session
        .update_state(SessionEvent::Client(ClientUpdate::Frame(frame)))
        .unwrap();
    assert!(matches!(change, Some(IcWsSessionState::Setup(_))));
}

#[test]
/// A non-call envelope while Open is a protocol violation that closes the
/// session; a transport error closes it too.
fn open_state_rejects_non_call_and_closes_on_transport_error() {
    let canister = principal("2chl6-4hpzw-vqaaa-aaaaa-c");
    let sender = principal("aaaaa-aa");

    let mut session = open_session(5, &canister, &sender);
    let request = ClientRequest {
        envelope: Envelope {
            content: EnvelopeContent::ReadState { sender: sender.clone() },
            sender_sig: vec![],
            sender_pubkey: vec![],
        },
    };
    let err = session
        .update_state(SessionEvent::Client(ClientUpdate::Frame(encode_client_request(&request))))
        .unwrap_err();
    assert!(matches!(err, IcWsError::IcWsProtocol(_)));
    assert!(matches!(session.session_state, IcWsSessionState::Closed));
    let err = session
        .update_state(SessionEvent::Client(ClientUpdate::Frame(vec![])))
        .unwrap_err();
    assert!(matches!(err, IcWsError::IcWsProtocol(_)), "closed sessions accept nothing");

    let mut session = open_session(6, &canister, &sender);
    let err = session
        .update_state(SessionEvent::Client(ClientUpdate::WsError("reset".to_string())))
        .unwrap_err();
    assert!(matches!(err, IcWsError::WebSocket(_)));
    assert!(matches!(session.session_state, IcWsSessionState::Closed));
}

/// Walks a fresh session to the Open state.
fn open_session(
    client_id: u64,
    canister: &ClientPrincipal,
    sender: &ClientPrincipal,
) -> ClientSession {
    let (mut session, _) = ClientSession::init(client_id, principal("aaaaa-aa"));
    session
        .update_state(SessionEvent::Client(ClientUpdate::Frame(open_frame(canister, sender, 0))))
        .unwrap();
    session
        .update_state(SessionEvent::Canister(Some(IcWsConnectionUpdate::Message(
            canister_message(),
        ))))
        .unwrap();
    assert!(matches!(session.session_state, IcWsSessionState::Open));
    session
}

#[test]
/// The poller's error notice, and its channel vanishing, each close the
/// session with a recorded failure.
fn poller_error_and_closed_channel_close_the_session() {
    let canister = principal("2chl6-4hpzw-vqaaa-aaaaa-c");
    let sender = principal("aaaaa-aa");

    let mut session = open_session(7, &canister, &sender);
    let err = session
        .update_state(SessionEvent::Canister(Some(IcWsConnectionUpdate::Error(
            "backend failed".to_string(),
        ))))
        .unwrap_err();
    assert!(matches!(err, IcWsError::WebSocket(_)));
    assert!(matches!(session.session_state, IcWsSessionState::Closed));

    let mut session = open_session(8, &canister, &sender);
    let err = session.update_state(SessionEvent::Canister(None)).unwrap_err();
    assert!(matches!(err, IcWsError::WebSocket(_)));
    assert!(matches!(session.session_state, IcWsSessionState::Closed));
}
