use ic_websocket_gateway::codec::{decode_websocket_message, encode_websocket_message};
use ic_websocket_gateway::demux::get_nonce_from_message;
use ic_websocket_gateway::poller::{
    IcWsConnectionUpdate, PollOutcome, PollerState, PollerToClientChannelData, TerminationInfo,
};
use ic_websocket_gateway::types::{
    CanisterOutputCertifiedMessages, CanisterOutputMessage, ClientPrincipal, WebsocketMessage,
};

fn principal(text: &str) -> ClientPrincipal {
    let p = candid::Principal::from_text(text).unwrap();
    ClientPrincipal::from_bytes(p.as_slice().to_vec())
}

fn output_message(client: &ClientPrincipal, sequence_num: u64, key: &str) -> CanisterOutputMessage {
    let ws = WebsocketMessage {
        client_principal: client.clone(),
        sequence_num,
        timestamp: 0,
        is_service_message: false,
        content: vec![1, 2, 3],
    };
    CanisterOutputMessage {
        client_principal: client.clone(),
        key: key.as_bytes().to_vec(),
        content: encode_websocket_message(&ws),
    }
}

fn batch(messages: Vec<CanisterOutputMessage>) -> CanisterOutputCertifiedMessages {
    CanisterOutputCertifiedMessages { messages, cert: vec![9], tree: vec![8] }
}

fn sequence_of(update: &IcWsConnectionUpdate) -> u64 {
    match update {
        IcWsConnectionUpdate::Message(m) => {
            decode_websocket_message(&m.content).expect("not a websocket message").sequence_num
        },
        IcWsConnectionUpdate::Error(_) => panic!("expected a message"),
    }
}

#[test]
/// A message for a client the poller does not know is queued; once the
/// client registers, the next poll completion hands it out exactly once,
/// before anything freshly polled.
fn queued_message_drained_on_registration() {
    let canister = principal("aaaaa-aa");
    let r = principal("2chl6-4hpzw-vqaaa-aaaaa-c");
    let n = principal("ygoe7-xpj6n-24gsd-zksfw-2mywm-xfyop-yvlsp-ctlwa-753xv-wz6rk-uae");

    let mut poller = PollerState::new(canister, r.clone());
    poller.message_nonce = 1;

    // a batch containing one message for the unknown client is queued
    let outcome = poller.handle_poll_result(Some(batch(vec![output_message(&n, 0, "k_1")])));
    assert!(outcome.deliveries.is_empty());
    assert!(outcome.termination.is_none());

    // the client registers, then any next batch drains its queue first
    assert!(poller.handle_intake(PollerToClientChannelData::NewClientChannel(n.clone())).is_none());
    let outcome = poller.handle_poll_result(Some(batch(vec![output_message(&n, 1, "k_2")])));
    assert!(outcome.termination.is_none());

    let for_n: Vec<u64> = outcome
        .deliveries
        .iter()
        .filter(|(p, _)| *p == n)
        .map(|(_, u)| sequence_of(u))
        .collect();
    assert_eq!(for_n, vec![0, 1]);
}

#[test]
/// With sequence numbers zero through nine queued and ten through nineteen
/// freshly polled, the client observes zero through nineteen in order.
fn per_client_fifo_across_queue_and_fresh_poll() {
    let canister = principal("aaaaa-aa");
    let r = principal("2chl6-4hpzw-vqaaa-aaaaa-c");
    let p = principal("ygoe7-xpj6n-24gsd-zksfw-2mywm-xfyop-yvlsp-ctlwa-753xv-wz6rk-uae");

    let mut poller = PollerState::new(canister, r.clone());
    poller.message_nonce = 1;

    // queue sequence numbers 0..=9 for the unregistered client
    let queued: Vec<CanisterOutputMessage> =
        (0..10).map(|s| output_message(&p, s, "k_1")).collect();
    let outcome = poller.handle_poll_result(Some(batch(queued)));
    assert!(outcome.deliveries.is_empty());

    // the client registers; the next batch carries 10..=19
    poller.handle_intake(PollerToClientChannelData::NewClientChannel(p.clone()));
    let polled: Vec<CanisterOutputMessage> =
        (10..20).map(|s| output_message(&p, s, "k_2")).collect();
    let outcome = poller.handle_poll_result(Some(batch(polled)));

    let for_p: Vec<u64> = outcome
        .deliveries
        .iter()
        .filter(|(q, _)| *q == p)
        .map(|(_, u)| sequence_of(u))
        .collect();
    let expected: Vec<u64> = (0..20).collect();
    assert_eq!(for_p, expected);
}

#[test]
/// Disconnecting the only registered client terminates the poller with
/// exactly one last-client notice for its canister.
fn last_client_termination() {
    let canister = principal("aaaaa-aa");
    let p = principal("2chl6-4hpzw-vqaaa-aaaaa-c");

    let mut poller = PollerState::new(canister.clone(), p.clone());
    let termination = poller.handle_intake(PollerToClientChannelData::ClientDisconnected(p));
    match termination {
        Some(TerminationInfo::LastClientDisconnected(c)) => assert!(c == canister),
        _ => panic!("expected a last-client notice"),
    }
}

#[test]
/// A fatal demultiplexer error — a message key that carries no nonce —
/// hands every registered client exactly one error notice and reports
/// backend failure for the canister; nothing else is delivered afterwards.
fn fatal_demux_error_broadcasts() {
    let canister = principal("aaaaa-aa");
    let p1 = principal("2chl6-4hpzw-vqaaa-aaaaa-c");
    let p2 = principal("ygoe7-xpj6n-24gsd-zksfw-2mywm-xfyop-yvlsp-ctlwa-753xv-wz6rk-uae");

    let mut poller = PollerState::new(canister.clone(), p1.clone());
    poller.message_nonce = 1;
    poller.handle_intake(PollerToClientChannelData::NewClientChannel(p2.clone()));

    let bad = output_message(&p1, 0, "keywithoutnonce");
    let PollOutcome { deliveries, termination } =
        poller.handle_poll_result(Some(batch(vec![bad])));

    match termination {
        Some(TerminationInfo::BackendError(c)) => assert!(c == canister),
        _ => panic!("expected a backend error"),
    }
    let mut errors_p1 = 0;
    let mut errors_p2 = 0;
    for (p, update) in &deliveries {
        match update {
            IcWsConnectionUpdate::Error(_) => {
                if *p == p1 {
                    errors_p1 += 1;
                } else if *p == p2 {
                    errors_p2 += 1;
                }
            },
            IcWsConnectionUpdate::Message(_) => panic!("no message may be delivered"),
        }
    }
    assert_eq!(errors_p1, 1);
    assert_eq!(errors_p2, 1);
}

#[test]
/// Registering a client and disconnecting it straight after leaves neither
/// a registration nor a queued message for it.
fn connect_then_disconnect_leaves_no_trace() {
    let canister = principal("aaaaa-aa");
    let r = principal("2chl6-4hpzw-vqaaa-aaaaa-c");
    let p = principal("ygoe7-xpj6n-24gsd-zksfw-2mywm-xfyop-yvlsp-ctlwa-753xv-wz6rk-uae");

    let mut poller = PollerState::new(canister, r.clone());
    poller.message_nonce = 1;

    // a queued message for the client exists before it ever registers
    let outcome = poller.handle_poll_result(Some(batch(vec![output_message(&p, 0, "k_1")])));
    assert!(outcome.deliveries.is_empty());

    assert!(poller.handle_intake(PollerToClientChannelData::NewClientChannel(p.clone())).is_none());
    let termination =
        poller.handle_intake(PollerToClientChannelData::ClientDisconnected(p.clone()));
    assert!(termination.is_none(), "another client is still registered");
    assert!(!poller.client_registry.contains(&p));

    // nothing for the client may surface on a later poll, even if it were
    // drained now
    let outcome = poller.handle_poll_result(None);
    assert!(outcome.deliveries.is_empty());
}

#[test]
/// The resume nonce steps past every relayed message: it becomes the
/// maximum of its old value and each message key's nonce plus one.
fn message_nonce_resumes_past_batch() {
    let canister = principal("aaaaa-aa");
    let p = principal("2chl6-4hpzw-vqaaa-aaaaa-c");

    let mut poller = PollerState::new(canister, p.clone());
    poller.message_nonce = 1;
    let msgs = vec![
        output_message(&p, 0, "gateway_uid_4"),
        output_message(&p, 1, "gateway_uid_7"),
    ];
    let outcome = poller.handle_poll_result(Some(batch(msgs)));
    assert!(outcome.termination.is_none());
    assert_eq!(poller.message_nonce, 8);
}

#[test]
/// The nonce is the decimal suffix after the key's last underscore; keys
/// without one, or with anything but digits there, carry none.
fn nonce_extraction_from_keys() {
    assert_eq!(get_nonce_from_message(&"gateway_uid_42".as_bytes().to_vec()).unwrap(), 42);
    assert_eq!(get_nonce_from_message(&"a_b_c_0".as_bytes().to_vec()).unwrap(), 0);
    assert_eq!(
        get_nonce_from_message(&"k_18446744073709551614".as_bytes().to_vec()).unwrap(),
        18446744073709551614
    );
    assert!(get_nonce_from_message(&"nounderscore".as_bytes().to_vec()).is_err());
    assert!(get_nonce_from_message(&"endsat_".as_bytes().to_vec()).is_err());
    assert!(get_nonce_from_message(&"mixed_12a".as_bytes().to_vec()).is_err());
    assert!(get_nonce_from_message(&"huge_18446744073709551615".as_bytes().to_vec()).is_err());
    assert!(get_nonce_from_message(&"".as_bytes().to_vec()).is_err());
}

#[test]
/// A poll completion with no batch still drains the holding queues, and
/// counts no polling iteration.
fn empty_poll_still_drains_queues() {
    let canister = principal("aaaaa-aa");
    let r = principal("2chl6-4hpzw-vqaaa-aaaaa-c");
    let p = principal("ygoe7-xpj6n-24gsd-zksfw-2mywm-xfyop-yvlsp-ctlwa-753xv-wz6rk-uae");

    let mut poller = PollerState::new(canister, r.clone());
    poller.message_nonce = 1;
    let outcome = poller.handle_poll_result(Some(batch(vec![output_message(&p, 5, "k_1")])));
    assert!(outcome.deliveries.is_empty());
    assert_eq!(poller.polling_iteration, 1);

    poller.handle_intake(PollerToClientChannelData::NewClientChannel(p.clone()));
    let outcome = poller.handle_poll_result(None);
    assert_eq!(outcome.deliveries.len(), 1);
    assert_eq!(sequence_of(&outcome.deliveries[0].1), 5);
    assert_eq!(poller.polling_iteration, 1);
}

#[test]
/// A fetched batch that the first-iteration filter empties, or that fails
/// to decode, yields no batch: the iteration is dropped and polling goes on.
fn get_canister_updates_drops_filtered_and_empty_batches() {
    let canister = principal("aaaaa-aa");
    let r = principal("2chl6-4hpzw-vqaaa-aaaaa-c");
    let poller = PollerState::new(canister, r.clone());

    // a failed fetch yields nothing
    assert!(poller.get_canister_updates(None).is_none());

    // on the first iteration a batch without the first client's open marker
    // is discarded whole
    let b = batch(vec![output_message(&r, 3, "k_1")]);
    assert!(poller.get_canister_updates(Some(b)).is_none());

    // an empty batch yields nothing either
    assert!(poller.get_canister_updates(Some(batch(Vec::new()))).is_none());
}
