use ic_websocket_gateway::demux::{process_queues, relay_message, ClientRegistry, HoldingQueues};
use ic_websocket_gateway::poller::{
    filter_canister_messages, filter_messages_of_first_polling_iteration, IcWsConnectionUpdate,
};
use ic_websocket_gateway::types::{
    CanisterAckMessageContent, CanisterOpenMessageContent, CanisterOutputMessage,
    CanisterServiceMessage, CanisterToClientMessage, ClientPrincipal, WebsocketMessage,
};
use ic_websocket_gateway::codec::{
    decode_websocket_message, encode_service_message, encode_websocket_message,
};

fn principal(text: &str) -> ClientPrincipal {
    let p = candid::Principal::from_text(text).unwrap();
    ClientPrincipal::from_bytes(p.as_slice().to_vec())
}

fn mock_open_message(client_principal: ClientPrincipal) -> CanisterServiceMessage {
    CanisterServiceMessage::OpenMessage(CanisterOpenMessageContent { client_principal })
}

fn mock_ack_message() -> CanisterServiceMessage {
    CanisterServiceMessage::AckMessage(CanisterAckMessageContent {
        last_incoming_sequence_num: 0,
    })
}

fn mock_websocket_service_message(
    content: CanisterServiceMessage,
    client_principal: ClientPrincipal,
    sequence_num: u64,
) -> WebsocketMessage {
    WebsocketMessage {
        client_principal,
        sequence_num,
        timestamp: 0,
        is_service_message: true,
        content: encode_service_message(&content),
    }
}

fn mock_websocket_message(client_principal: ClientPrincipal, sequence_num: u64) -> WebsocketMessage {
    WebsocketMessage {
        client_principal,
        sequence_num,
        timestamp: 0,
        is_service_message: false,
        content: vec![],
    }
}

fn mock_canister_output_message(
    content: WebsocketMessage,
    client_principal: ClientPrincipal,
) -> CanisterOutputMessage {
    CanisterOutputMessage {
        client_principal,
        key: "gateway_uid_0".as_bytes().to_vec(),
        content: encode_websocket_message(&content),
    }
}

fn canister_open_message(client_principal: ClientPrincipal, sequence_num: u64) -> CanisterOutputMessage {
    let open_message = mock_open_message(client_principal.clone());
    let websocket_service_message =
        mock_websocket_service_message(open_message, client_principal.clone(), sequence_num);
    mock_canister_output_message(websocket_service_message, client_principal)
}

fn canister_ack_message(client_principal: ClientPrincipal, sequence_num: u64) -> CanisterOutputMessage {
    let ack_message = mock_ack_message();
    let websocket_service_message =
        mock_websocket_service_message(ack_message, client_principal.clone(), sequence_num);
    mock_canister_output_message(websocket_service_message, client_principal)
}

fn canister_output_message(client_principal: ClientPrincipal, sequence_num: u64) -> CanisterOutputMessage {
    let websocket_message = mock_websocket_message(client_principal.clone(), sequence_num);
    mock_canister_output_message(websocket_message, client_principal)
}

fn mock_messages_to_be_filtered() -> Vec<CanisterOutputMessage> {
    let old_client_principal = principal("aaaaa-aa");
    let reconnecting_client_principal = principal("2chl6-4hpzw-vqaaa-aaaaa-c");
    let new_client_principal =
        principal("ygoe7-xpj6n-24gsd-zksfw-2mywm-xfyop-yvlsp-ctlwa-753xv-wz6rk-uae");

    let mut messages = Vec::new();
    // everything up to the second open message predates the gateway reboot
    messages.push(canister_output_message(old_client_principal.clone(), 10));
    messages.push(canister_open_message(reconnecting_client_principal.clone(), 0));
    messages.push(canister_ack_message(old_client_principal.clone(), 11));
    messages.push(canister_output_message(reconnecting_client_principal.clone(), 1));
    messages.push(canister_output_message(reconnecting_client_principal.clone(), 2));
    messages.push(canister_output_message(reconnecting_client_principal.clone(), 3));
    messages.push(canister_ack_message(reconnecting_client_principal.clone(), 4));
    messages.push(canister_output_message(old_client_principal, 12));
    // the gateway reboots; the reconnecting client opens a new session and a
    // new client connects
    messages.push(canister_open_message(reconnecting_client_principal.clone(), 0));
    messages.push(canister_output_message(reconnecting_client_principal.clone(), 1));
    messages.push(canister_output_message(reconnecting_client_principal, 2));
    messages.push(canister_open_message(new_client_principal.clone(), 0));
    messages.push(canister_output_message(new_client_principal, 1));
    messages
}

fn mock_all_old_messages_to_be_filtered() -> Vec<CanisterOutputMessage> {
    let old_client_principal = principal("aaaaa-aa");
    let reconnecting_client_principal = principal("2chl6-4hpzw-vqaaa-aaaaa-c");

    let mut messages = Vec::new();
    messages.push(canister_output_message(old_client_principal.clone(), 10));
    messages.push(canister_ack_message(old_client_principal.clone(), 11));
    messages.push(canister_output_message(reconnecting_client_principal.clone(), 1));
    messages.push(canister_output_message(reconnecting_client_principal.clone(), 2));
    messages.push(canister_output_message(reconnecting_client_principal.clone(), 3));
    messages.push(canister_ack_message(reconnecting_client_principal, 4));
    messages.push(canister_output_message(old_client_principal, 12));
    messages
}

fn mock_ordered_messages(
    client_principal: &ClientPrincipal,
    start_sequence_number: u64,
) -> Vec<CanisterOutputMessage> {
    let mut sequence_number = start_sequence_number;
    let mut messages = Vec::new();
    while sequence_number < 10 {
        messages.push(canister_output_message(client_principal.clone(), sequence_number));
        sequence_number += 1;
    }
    messages
}

fn to_canister_to_client_message(m: CanisterOutputMessage) -> CanisterToClientMessage {
    CanisterToClientMessage {
        key: m.key,
        content: m.content,
        cert: Vec::new(),
        tree: Vec::new(),
    }
}

#[test]
/// Simulates the case in which polled messages are filtered before being relayed.
/// The messages that are not filtered out should be relayed in the same order as when polled.
fn should_return_filtered_messages_in_order() {
    let client_principal = principal("2chl6-4hpzw-vqaaa-aaaaa-c");

    let mut messages = mock_messages_to_be_filtered();
    filter_messages_of_first_polling_iteration(&mut messages, &client_principal).unwrap();
    assert_eq!(messages.len(), 5);

    let mut expected_sequence_number = 0;
    for canister_output_message in messages {
        let websocket_message = decode_websocket_message(&canister_output_message.content)
            .expect("content of canister_output_message is not of type WebsocketMessage");
        if websocket_message.client_principal == client_principal {
            assert_eq!(websocket_message.sequence_num, expected_sequence_number);
            expected_sequence_number += 1;
        }
    }
    assert_eq!(expected_sequence_number, 3);
}

#[test]
/// Simulates the case in which polled messages are all from before the gateway rebooted.
/// All the messages should be filtered out.
fn should_filter_out_all_messages() {
    let client_principal = principal("2chl6-4hpzw-vqaaa-aaaaa-c");

    let mut messages = mock_all_old_messages_to_be_filtered();
    filter_messages_of_first_polling_iteration(&mut messages, &client_principal).unwrap();
    assert_eq!(messages.len(), 0);
}

#[test]
/// Simulates the case in which the poller starts and the canister's queue contains some old
/// messages. Relays only messages for the connected clients; the rest are queued.
fn filterprocess_canister_messages() {
    let reconnecting_client_principal = principal("2chl6-4hpzw-vqaaa-aaaaa-c");
    let mut client_registry = ClientRegistry::new();
    client_registry.insert(reconnecting_client_principal.clone());
    let mut clients_message_queues = HoldingQueues::new();

    let mut messages = mock_messages_to_be_filtered();
    let mut message_nonce = 0;
    filter_canister_messages(&mut messages, message_nonce, &reconnecting_client_principal)
        .unwrap();
    assert_eq!(messages.len(), 5);

    let mut received = 0;
    let mut queued = 0;
    for canister_output_message in messages {
        let client_principal = canister_output_message.client_principal.clone();
        let canister_to_client_message = to_canister_to_client_message(canister_output_message);
        let delivered = relay_message(
            &client_principal,
            canister_to_client_message,
            &client_registry,
            &mut clients_message_queues,
            &mut message_nonce,
        )
        .unwrap();

        match delivered {
            Some(IcWsConnectionUpdate::Message(m)) => {
                // messages relayed directly must be for the only registered client
                let websocket_message = decode_websocket_message(&m.content)
                    .expect("content must be of type WebsocketMessage");
                assert_eq!(
                    websocket_message.client_principal,
                    reconnecting_client_principal
                );
                received += 1;
            },
            Some(_) => panic!("updates must be of variant Message"),
            None => queued += 1,
        }
    }
    let expected_received = 3;
    assert_eq!(received, expected_received);
    let expected_queued = 2;
    assert_eq!(queued, expected_queued);

    let mut messages = mock_messages_to_be_filtered();
    // here message_nonce is > 0, so messages will not be filtered
    filter_canister_messages(&mut messages, message_nonce, &reconnecting_client_principal)
        .unwrap();
    assert_eq!(messages.len(), 13);
}

#[test]
/// Simulates the case in which the gateway polls a message for a client that is not yet
/// registered in the poller. Stores the message in the queue so that it can be processed later.
fn should_push_message_to_queue() {
    let client_registry = ClientRegistry::new();
    let mut clients_message_queues = HoldingQueues::new();

    let client_principal = principal("2chl6-4hpzw-vqaaa-aaaaa-c");
    let canister_output_message = canister_open_message(client_principal.clone(), 0);
    let mut message_nonce = 0;

    let delivered = relay_message(
        &client_principal,
        to_canister_to_client_message(canister_output_message),
        &client_registry,
        &mut clients_message_queues,
        &mut message_nonce,
    )
    .unwrap();

    assert!(delivered.is_none());
    assert_eq!(clients_message_queues.len(), 1);
}

#[test]
/// Simulates the case in which there is a message in the queue for a client that is connected.
/// Relays the message to the client and empties the queue.
fn should_process_message_in_queue() {
    let mut client_registry = ClientRegistry::new();
    let mut clients_message_queues = HoldingQueues::new();

    let client_principal = principal("2chl6-4hpzw-vqaaa-aaaaa-c");
    let canister_output_message = canister_open_message(client_principal.clone(), 0);
    clients_message_queues.push_msg(
        &client_principal,
        to_canister_to_client_message(canister_output_message),
    );

    // simulates the client being registered in the poller
    client_registry.insert(client_principal.clone());

    let deliveries = process_queues(&mut clients_message_queues, &client_registry);

    assert_eq!(deliveries.len(), 1, "should receive message");
    assert!(deliveries[0].0 == client_principal);
    assert_eq!(clients_message_queues.len(), 0);
}

#[test]
/// Simulates the case in which there is a message in the queue for a client that is not yet
/// connected. Keeps the message in the queue.
fn should_keep_message_in_queue() {
    let client_registry = ClientRegistry::new();
    let mut clients_message_queues = HoldingQueues::new();

    let client_principal = principal("2chl6-4hpzw-vqaaa-aaaaa-c");
    let canister_output_message = canister_open_message(client_principal.clone(), 0);
    clients_message_queues.push_msg(
        &client_principal,
        to_canister_to_client_message(canister_output_message),
    );

    let deliveries = process_queues(&mut clients_message_queues, &client_registry);

    assert_eq!(deliveries.len(), 0);
    assert_eq!(clients_message_queues.len(), 1);
}

#[test]
/// Simulates the case in which there are multiple messages in the queue for a client that is
/// connected. Relays the messages to the client in ascending order of sequence number.
fn should_receive_messages_from_queue_in_order() {
    let mut client_registry = ClientRegistry::new();
    let mut clients_message_queues = HoldingQueues::new();

    let client_principal = principal("2chl6-4hpzw-vqaaa-aaaaa-c");
    let mut count_messages: u64 = 0;
    for canister_output_message in mock_ordered_messages(&client_principal, 0) {
        clients_message_queues.push_msg(
            &client_principal,
            to_canister_to_client_message(canister_output_message),
        );
        count_messages += 1;
    }

    // simulates the client being registered in the poller
    client_registry.insert(client_principal.clone());

    let deliveries = process_queues(&mut clients_message_queues, &client_registry);

    let mut expected_sequence_number = 0;
    for (_, update) in deliveries {
        if let IcWsConnectionUpdate::Message(m) = update {
            let websocket_message = decode_websocket_message(&m.content)
                .expect("content of canister_output_message is not of type WebsocketMessage");
            assert_eq!(websocket_message.sequence_num, expected_sequence_number);
            expected_sequence_number += 1;
        }
    }

    // make sure that all messages are received
    assert_eq!(count_messages, expected_sequence_number);
    // make sure that no messages are left in the queue
    assert_eq!(clients_message_queues.len(), 0);
}

#[test]
/// Simulates the case in which the gateway polls multiple messages for a client that is
/// connected. Relays the messages to the client in ascending order of sequence number.
fn should_relay_polled_messages_in_order() {
    let mut client_registry = ClientRegistry::new();
    let mut clients_message_queues = HoldingQueues::new();

    let client_principal = principal("2chl6-4hpzw-vqaaa-aaaaa-c");
    client_registry.insert(client_principal.clone());

    let messages = mock_ordered_messages(&client_principal, 0);
    let count_messages = messages.len() as u64;
    let mut message_nonce = 0;
    let mut expected_sequence_number = 0;
    for canister_output_message in messages {
        let delivered = relay_message(
            &client_principal,
            to_canister_to_client_message(canister_output_message),
            &client_registry,
            &mut clients_message_queues,
            &mut message_nonce,
        )
        .unwrap();
        if let Some(IcWsConnectionUpdate::Message(m)) = delivered {
            let websocket_message = decode_websocket_message(&m.content)
                .expect("content of canister_output_message is not of type WebsocketMessage");
            assert_eq!(websocket_message.sequence_num, expected_sequence_number);
            expected_sequence_number += 1;
        }
    }

    // make sure that all messages are received
    assert_eq!(count_messages, expected_sequence_number);
    // make sure that no messages are pushed into the queue
    assert_eq!(clients_message_queues.len(), 0);
}

#[test]
/// Simulates the case in which the gateway polls multiple messages for a client that is
/// connected while there are already messages in the queue for it. Relays all of them in
/// ascending order of sequence number, queued messages first.
fn should_relay_polled_messages_in_order_after_processing_queue() {
    let mut client_registry = ClientRegistry::new();
    let mut clients_message_queues = HoldingQueues::new();

    let client_principal = principal("2chl6-4hpzw-vqaaa-aaaaa-c");
    client_registry.insert(client_principal.clone());

    let mut count_messages_in_queue: u64 = 0;
    for canister_output_message in mock_ordered_messages(&client_principal, 0) {
        clients_message_queues.push_msg(
            &client_principal,
            to_canister_to_client_message(canister_output_message),
        );
        count_messages_in_queue += 1;
    }

    let mut expected_sequence_number = 0;
    for (_, update) in process_queues(&mut clients_message_queues, &client_registry) {
        if let IcWsConnectionUpdate::Message(m) = update {
            let websocket_message = decode_websocket_message(&m.content)
                .expect("content of canister_output_message is not of type WebsocketMessage");
            assert_eq!(websocket_message.sequence_num, expected_sequence_number);
            expected_sequence_number += 1;
        }
    }

    let polled_messages = mock_ordered_messages(&client_principal, count_messages_in_queue);
    let count_polled_messages = polled_messages.len() as u64;
    let mut message_nonce = 0;
    for canister_output_message in polled_messages {
        let delivered = relay_message(
            &client_principal,
            to_canister_to_client_message(canister_output_message),
            &client_registry,
            &mut clients_message_queues,
            &mut message_nonce,
        )
        .unwrap();
        if let Some(IcWsConnectionUpdate::Message(m)) = delivered {
            let websocket_message = decode_websocket_message(&m.content)
                .expect("content of canister_output_message is not of type WebsocketMessage");
            assert_eq!(websocket_message.sequence_num, expected_sequence_number);
            expected_sequence_number += 1;
        }
    }

    // make sure that all messages are received
    assert_eq!(
        count_messages_in_queue + count_polled_messages,
        expected_sequence_number
    );
    // make sure that no messages are pushed into the queue
    assert_eq!(clients_message_queues.len(), 0);
}

#[test]
/// Filtering an empty batch yields an empty batch.
fn filter_on_empty_batch_yields_empty_batch() {
    let client_principal = principal("2chl6-4hpzw-vqaaa-aaaaa-c");
    let mut messages: Vec<CanisterOutputMessage> = Vec::new();
    filter_messages_of_first_polling_iteration(&mut messages, &client_principal).unwrap();
    assert_eq!(messages.len(), 0);
}

#[test]
/// Running the first-iteration filter twice on the same batch yields the
/// same result as running it once.
fn filter_is_idempotent() {
    let client_principal = principal("2chl6-4hpzw-vqaaa-aaaaa-c");

    let mut once = mock_messages_to_be_filtered();
    filter_messages_of_first_polling_iteration(&mut once, &client_principal).unwrap();
    let mut twice = once.clone();
    filter_messages_of_first_polling_iteration(&mut twice, &client_principal).unwrap();

    assert_eq!(once.len(), twice.len());
    for (a, b) in once.iter().zip(twice.iter()) {
        assert_eq!(a.key, b.key);
        assert_eq!(a.content, b.content);
        assert!(a.client_principal == b.client_principal);
    }
}

#[test]
/// Content the codec rejects among the scanned messages is an error; the
/// batch is left untouched so the iteration can be dropped whole.
fn filter_reports_undecodable_content() {
    let client_principal = principal("2chl6-4hpzw-vqaaa-aaaaa-c");

    let mut messages = vec![canister_output_message(client_principal.clone(), 0)];
    messages[0].content = vec![1, 2, 3];
    let before_len = messages.len();
    let before_content = messages[0].content.clone();

    let r = filter_messages_of_first_polling_iteration(&mut messages, &client_principal);
    assert!(r.is_err());
    assert_eq!(messages.len(), before_len);
    assert_eq!(messages[0].content, before_content);
}
