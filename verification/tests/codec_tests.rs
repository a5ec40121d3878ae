use ic_websocket_gateway::codec::{
    decode_canister_to_client_message, decode_client_request, decode_handshake_message,
    decode_service_message, decode_websocket_message, decode_ws_open_arguments,
    encode_canister_to_client_message, encode_client_request, encode_handshake_message,
    encode_service_message, encode_websocket_message, encode_ws_open_arguments,
};
use ic_websocket_gateway::types::{
    CanisterAckMessageContent, CanisterOpenMessageContent, CanisterServiceMessage,
    CanisterToClientMessage, CanisterWsOpenArguments, ClientPrincipal, ClientRequest, Envelope,
    EnvelopeContent, GatewayHandshakeMessage, WebsocketMessage,
};

fn principal(text: &str) -> ClientPrincipal {
    let p = candid::Principal::from_text(text).unwrap();
    ClientPrincipal::from_bytes(p.as_slice().to_vec())
}

#[test]
fn handshake_round_trip() {
    let m = GatewayHandshakeMessage { gateway_principal: principal("2chl6-4hpzw-vqaaa-aaaaa-c") };
    let bytes = encode_handshake_message(&m);
    let back = decode_handshake_message(&bytes).unwrap();
    assert!(back.gateway_principal == m.gateway_principal);
}

#[test]
fn websocket_message_round_trip() {
    let m = WebsocketMessage {
        client_principal: principal("2chl6-4hpzw-vqaaa-aaaaa-c"),
        sequence_num: 123456789012345,
        timestamp: 25,
        is_service_message: true,
        content: vec![0, 1, 2, 254, 255],
    };
    let bytes = encode_websocket_message(&m);
    let back = decode_websocket_message(&bytes).unwrap();
    assert!(back.client_principal == m.client_principal);
    assert_eq!(back.sequence_num, m.sequence_num);
    assert_eq!(back.timestamp, m.timestamp);
    assert_eq!(back.is_service_message, m.is_service_message);
    assert_eq!(back.content, m.content);
}

#[test]
fn service_message_round_trip() {
    let open = CanisterServiceMessage::OpenMessage(CanisterOpenMessageContent {
        client_principal: principal("aaaaa-aa"),
    });
    let bytes = encode_service_message(&open);
    match decode_service_message(&bytes).unwrap() {
        CanisterServiceMessage::OpenMessage(c) => {
            assert!(c.client_principal == principal("aaaaa-aa"))
        },
        _ => panic!("wrong variant"),
    }

    let ack = CanisterServiceMessage::AckMessage(CanisterAckMessageContent {
        last_incoming_sequence_num: 77,
    });
    let bytes = encode_service_message(&ack);
    match decode_service_message(&bytes).unwrap() {
        CanisterServiceMessage::AckMessage(c) => assert_eq!(c.last_incoming_sequence_num, 77),
        _ => panic!("wrong variant"),
    }
}

#[test]
fn canister_to_client_message_round_trip() {
    let m = CanisterToClientMessage {
        key: "gateway_uid_3".as_bytes().to_vec(),
        content: vec![5, 6, 7],
        cert: vec![1; 40],
        tree: vec![2; 300],
    };
    let bytes = encode_canister_to_client_message(&m);
    let back = decode_canister_to_client_message(&bytes).unwrap();
    assert_eq!(back.key, m.key);
    assert_eq!(back.content, m.content);
    assert_eq!(back.cert, m.cert);
    assert_eq!(back.tree, m.tree);
}

#[test]
fn client_request_round_trip() {
    let m = ClientRequest {
        envelope: Envelope {
            content: EnvelopeContent::Call {
                nonce: None,
                ingress_expiry: 1_699_999_999_000_000_000,
                sender: principal("2chl6-4hpzw-vqaaa-aaaaa-c"),
                canister_id: principal("aaaaa-aa"),
                method_name: "ws_message".as_bytes().to_vec(),
                arg: vec![1, 2, 3, 4],
            },
            sender_sig: vec![9; 64],
            sender_pubkey: vec![7; 32],
        },
    };
    let bytes = encode_client_request(&m);
    let back = decode_client_request(&bytes).unwrap();
    match back.envelope.content {
        EnvelopeContent::Call { nonce, ingress_expiry, sender, canister_id, method_name, arg } => {
            assert!(nonce.is_none());
            assert_eq!(ingress_expiry, 1_699_999_999_000_000_000);
            assert!(sender == principal("2chl6-4hpzw-vqaaa-aaaaa-c"));
            assert!(canister_id == principal("aaaaa-aa"));
            assert_eq!(method_name, "ws_message".as_bytes().to_vec());
            assert_eq!(arg, vec![1, 2, 3, 4]);
        },
        _ => panic!("wrong variant"),
    }
    assert_eq!(back.envelope.sender_sig, vec![9; 64]);
    assert_eq!(back.envelope.sender_pubkey, vec![7; 32]);

    // a call carrying a freshness nonce keeps it through the round trip
    let m = ClientRequest {
        envelope: Envelope {
            content: EnvelopeContent::Call {
                nonce: Some(vec![0xab; 12]),
                ingress_expiry: 5,
                sender: principal("aaaaa-aa"),
                canister_id: principal("2chl6-4hpzw-vqaaa-aaaaa-c"),
                method_name: "ws_open".as_bytes().to_vec(),
                arg: vec![],
            },
            sender_sig: vec![1],
            sender_pubkey: vec![2],
        },
    };
    let bytes = encode_client_request(&m);
    let back = decode_client_request(&bytes).unwrap();
    match back.envelope.content {
        EnvelopeContent::Call { nonce, method_name, .. } => {
            assert_eq!(nonce, Some(vec![0xab; 12]));
            assert_eq!(method_name, "ws_open".as_bytes().to_vec());
        },
        _ => panic!("wrong variant"),
    }

    let m = ClientRequest {
        envelope: Envelope {
            content: EnvelopeContent::ReadState { sender: principal("aaaaa-aa") },
            sender_sig: vec![],
            sender_pubkey: vec![],
        },
    };
    let bytes = encode_client_request(&m);
    let back = decode_client_request(&bytes).unwrap();
    assert!(matches!(back.envelope.content, EnvelopeContent::ReadState { .. }));
}

#[test]
fn ws_open_arguments_round_trip() {
    let m = CanisterWsOpenArguments { client_nonce: u64::MAX };
    let bytes = encode_ws_open_arguments(&m);
    let back = decode_ws_open_arguments(&bytes).unwrap();
    assert_eq!(back.client_nonce, u64::MAX);

    // the wire form is the candid argument encoding of the record: magic,
    // type table, then the fixed-width value little-endian
    let bytes = encode_ws_open_arguments(&CanisterWsOpenArguments { client_nonce: 0x0102 });
    assert_eq!(&bytes[..4], "DIDL".as_bytes());
    assert_eq!(&bytes[bytes.len() - 8..], &[0x02, 0x01, 0, 0, 0, 0, 0, 0]);
}

#[test]
/// Decoders reject input that does not begin with the self-describe tag, and
/// input whose shape does not match.
fn decoders_reject_malformed_input() {
    let m = WebsocketMessage {
        client_principal: principal("aaaaa-aa"),
        sequence_num: 1,
        timestamp: 2,
        is_service_message: false,
        content: vec![],
    };
    let good = encode_websocket_message(&m);

    // strip the self-describe tag
    assert!(decode_websocket_message(&good[3..].to_vec()).is_none());
    // truncate
    assert!(decode_websocket_message(&good[..good.len() - 1].to_vec()).is_none());
    // trailing garbage
    let mut padded = good.clone();
    padded.push(0);
    assert!(decode_websocket_message(&padded).is_none());
    // flip the map header
    let mut wrong = good.clone();
    wrong[3] = 0xa4;
    assert!(decode_websocket_message(&wrong).is_none());
    // empty input, and input of another type
    assert!(decode_websocket_message(&Vec::new()).is_none());
    assert!(decode_service_message(&good).is_none());
}

#[test]
/// The encoding is the standard self-describing schemaless format: an
/// independent reader sees the same field values.
fn encoding_is_standard_self_describing_format() {
    let m = WebsocketMessage {
        client_principal: principal("2chl6-4hpzw-vqaaa-aaaaa-c"),
        sequence_num: 300,
        timestamp: 7,
        is_service_message: true,
        content: vec![42, 43],
    };
    let bytes = encode_websocket_message(&m);
    let value: serde_cbor::Value = serde_cbor::from_slice(&bytes).unwrap();
    let serde_cbor::Value::Map(map) = value else { panic!("expected a map") };
    let get = |k: &str| map.get(&serde_cbor::Value::Text(k.to_string())).unwrap().clone();
    assert_eq!(
        get("client_principal"),
        serde_cbor::Value::Bytes(m.client_principal.as_bytes().clone())
    );
    assert_eq!(get("sequence_num"), serde_cbor::Value::Integer(300));
    assert_eq!(get("timestamp"), serde_cbor::Value::Integer(7));
    assert_eq!(get("is_service_message"), serde_cbor::Value::Bool(true));
    assert_eq!(get("content"), serde_cbor::Value::Bytes(vec![42, 43]));
}

#[test]
/// A client request encodes to the standard envelope wire shape: an
/// independent reader sees the envelope map with the internally tagged call
/// content, the signed fields, and the signature material in order.
fn client_request_encoding_is_standard_envelope_shape() {
    let m = ClientRequest {
        envelope: Envelope {
            content: EnvelopeContent::Call {
                nonce: Some(vec![0x11, 0x22]),
                ingress_expiry: 1_700_000_000,
                sender: principal("2chl6-4hpzw-vqaaa-aaaaa-c"),
                canister_id: principal("aaaaa-aa"),
                method_name: "ws_message".as_bytes().to_vec(),
                arg: vec![5, 6],
            },
            sender_pubkey: vec![3; 4],
            sender_sig: vec![4; 4],
        },
    };
    let bytes = encode_client_request(&m);
    let value: serde_cbor::Value = serde_cbor::from_slice(&bytes).unwrap();
    let serde_cbor::Value::Map(outer) = value else { panic!("expected the outer map") };
    let envelope = outer.get(&serde_cbor::Value::Text("envelope".to_string())).unwrap();
    let serde_cbor::Value::Map(envelope) = envelope else { panic!("expected the envelope map") };
    let get = |m: &std::collections::BTreeMap<serde_cbor::Value, serde_cbor::Value>, k: &str| {
        m.get(&serde_cbor::Value::Text(k.to_string())).unwrap().clone()
    };
    assert_eq!(get(&envelope, "sender_pubkey"), serde_cbor::Value::Bytes(vec![3; 4]));
    assert_eq!(get(&envelope, "sender_sig"), serde_cbor::Value::Bytes(vec![4; 4]));
    let serde_cbor::Value::Map(content) = get(&envelope, "content") else {
        panic!("expected the content map")
    };
    assert_eq!(
        get(&content, "request_type"),
        serde_cbor::Value::Text("call".to_string())
    );
    assert_eq!(get(&content, "nonce"), serde_cbor::Value::Bytes(vec![0x11, 0x22]));
    assert_eq!(get(&content, "ingress_expiry"), serde_cbor::Value::Integer(1_700_000_000));
    assert_eq!(
        get(&content, "sender"),
        serde_cbor::Value::Bytes(
            candid::Principal::from_text("2chl6-4hpzw-vqaaa-aaaaa-c").unwrap().as_slice().to_vec()
        )
    );
    assert_eq!(
        get(&content, "canister_id"),
        serde_cbor::Value::Bytes(candid::Principal::from_text("aaaaa-aa").unwrap().as_slice().to_vec())
    );
    assert_eq!(
        get(&content, "method_name"),
        serde_cbor::Value::Text("ws_message".to_string())
    );
    assert_eq!(get(&content, "arg"), serde_cbor::Value::Bytes(vec![5, 6]));
}
