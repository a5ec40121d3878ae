//! Canister poller core: the state one poller task keeps per canister, the
//! first-iteration filter applied after a restart, and the pure transitions
//! driven by intake events and poll completions. The surrounding task loop —
//! sleeping, calling the backend, performing channel sends — lives outside
//! this crate and feeds these functions.

use vstd::prelude::*;

use crate::codec::{dec_service_message, dec_websocket_message, decode_service_message,
    decode_websocket_message};
use crate::demux::{ClientRegistry, DeliveryV, HoldingQueues, QueueEntryV, deliveries_view,
    drain_spec, process_queues, q_remove, q_wf, r_insert, r_remove, reg_wf, relay_batch_spec,
    relay_messages, lemma_r_insert_spec, lemma_r_remove_spec, lemma_q_remove_spec};
use crate::types::{CanisterId, CanisterOutputCertifiedMessages, CanisterOutputMessage,
    CanisterOutputMessageV, CanisterServiceMessage, CanisterServiceMessageV,
    CanisterToClientMessage, CanisterToClientMessageV, ClientPrincipal};

verus! {

/// What the poller hands a client's connection handler: a fresh canister
/// message, or notice that the poller failed and the connection must close.
#[derive(Debug)]
pub enum IcWsConnectionUpdate {
    Message(CanisterToClientMessage),
    Error(String),
}

#[verifier::ext_equal]
pub enum IcWsConnectionUpdateV {
    Message(CanisterToClientMessageV),
    Error(Seq<char>),
}

impl View for IcWsConnectionUpdate {
    type V = IcWsConnectionUpdateV;

    open spec fn view(&self) -> IcWsConnectionUpdateV {
        match self {
            IcWsConnectionUpdate::Message(m) => IcWsConnectionUpdateV::Message(m@),
            IcWsConnectionUpdate::Error(e) => IcWsConnectionUpdateV::Error(e@),
        }
    }
}

/// What the connection manager sends the poller: a newly connected client —
/// whose sink the caller keeps, keyed by the principal — or a disconnection.
#[derive(Debug)]
pub enum PollerToClientChannelData {
    NewClientChannel(ClientPrincipal),
    ClientDisconnected(ClientPrincipal),
}

#[verifier::ext_equal]
pub enum PollerToClientChannelDataV {
    NewClientChannel(Seq<u8>),
    ClientDisconnected(Seq<u8>),
}

impl View for PollerToClientChannelData {
    type V = PollerToClientChannelDataV;

    open spec fn view(&self) -> PollerToClientChannelDataV {
        match self {
            PollerToClientChannelData::NewClientChannel(p) =>
                PollerToClientChannelDataV::NewClientChannel(p@),
            PollerToClientChannelData::ClientDisconnected(p) =>
                PollerToClientChannelDataV::ClientDisconnected(p@),
        }
    }
}

/// Why a poller terminates: its last client disconnected, or the backend
/// failed fatally.
#[derive(Debug)]
pub enum TerminationInfo {
    LastClientDisconnected(CanisterId),
    BackendError(CanisterId),
}

#[verifier::ext_equal]
pub enum TerminationInfoV {
    LastClientDisconnected(Seq<u8>),
    BackendError(Seq<u8>),
}

impl View for TerminationInfo {
    type V = TerminationInfoV;

    open spec fn view(&self) -> TerminationInfoV {
        match self {
            TerminationInfo::LastClientDisconnected(c) =>
                TerminationInfoV::LastClientDisconnected(c@),
            TerminationInfo::BackendError(c) => TerminationInfoV::BackendError(c@),
        }
    }
}

// --- First-iteration filter ---

/// What one batch entry's content is to the filter: the marker — a service
/// message opening the first client's session — ordinary traffic, or bytes
/// the codec rejects.
pub enum MsgClass {
    Undecodable,
    Marker,
    Plain,
}

/// Classifies one entry's content against the first client.
#[verifier::opaque]
pub open spec fn classify_msg(content: Seq<u8>, first: Seq<u8>) -> MsgClass {
    match dec_websocket_message(content) {
        None => MsgClass::Undecodable,
        Some(w) => if !w.is_service_message {
            MsgClass::Plain
        } else {
            match dec_service_message(w.content) {
                None => MsgClass::Undecodable,
                Some(sm) => match sm {
                    CanisterServiceMessageV::OpenMessage(cp) => if cp == first {
                        MsgClass::Marker
                    } else {
                        MsgClass::Plain
                    },
                    CanisterServiceMessageV::AckMessage(_) => MsgClass::Plain,
                },
            }
        },
    }
}

/// Result of scanning a batch newest to oldest for the marker.
pub enum FilterScan {
    Undecodable,
    Found(int),
    NotFound,
}

/// Scans newest to oldest: stops at the most recent marker, or at the first
/// content the codec rejects.
pub open spec fn filter_scan(msgs: Seq<CanisterOutputMessageV>, first: Seq<u8>) -> FilterScan
    decreases msgs.len(),
{
    if msgs.len() == 0 {
        FilterScan::NotFound
    } else {
        match classify_msg(msgs.last().content, first) {
            MsgClass::Undecodable => FilterScan::Undecodable,
            MsgClass::Marker => FilterScan::Found(msgs.len() - 1),
            MsgClass::Plain => filter_scan(msgs.drop_last(), first),
        }
    }
}

/// What the first-iteration filter keeps: the suffix from the most recent
/// marker on, in original order; everything, if the batch is empty of a
/// marker, is discarded. `None` when a scanned content is undecodable: the
/// whole iteration is then dropped.
pub open spec fn filter_first_iteration_spec(
    msgs: Seq<CanisterOutputMessageV>,
    first: Seq<u8>,
) -> Option<Seq<CanisterOutputMessageV>> {
    match filter_scan(msgs, first) {
        FilterScan::Undecodable => None,
        FilterScan::Found(j) => Some(msgs.skip(j)),
        FilterScan::NotFound => Some(Seq::empty()),
    }
}

/// The view of a message list.
pub open spec fn messages_view(v: Seq<CanisterOutputMessage>) -> Seq<CanisterOutputMessageV> {
    v.map_values(|m: CanisterOutputMessage| m@)
}

/// Classifies one entry's content, as the specification does.
fn classify_message(content: &Vec<u8>, first: &ClientPrincipal) -> (r: MsgClass)
    ensures
        r == classify_msg(content@, first@),
{
    proof {
        reveal(classify_msg);
    }
    match decode_websocket_message(content) {
        None => MsgClass::Undecodable,
        Some(w) => if !w.is_service_message {
            MsgClass::Plain
        } else {
            match decode_service_message(&w.content) {
                None => MsgClass::Undecodable,
                Some(sm) => match sm {
                    CanisterServiceMessage::OpenMessage(c) => {
                        if c.client_principal.eq(first) {
                            MsgClass::Marker
                        } else {
                            MsgClass::Plain
                        }
                    },
                    CanisterServiceMessage::AckMessage(_) => MsgClass::Plain,
                },
            }
        },
    }
}

/// Replaces the list with its suffix from `j` on.
fn keep_suffix(messages: &mut Vec<CanisterOutputMessage>, j: usize)
    requires
        j <= old(messages)@.len(),
    ensures
        messages_view(final(messages)@) == messages_view(old(messages)@).skip(j as int),
{
    let mut out: Vec<CanisterOutputMessage> = Vec::new();
    let mlen: usize = messages.len();
    let mut k: usize = j;
    while k < mlen
        invariant
            j <= k <= mlen,
            mlen == messages@.len(),
            messages@ == old(messages)@,
            out@.len() == k - j,
            forall|t: int| 0 <= t < out@.len() ==> #[trigger] out@[t]@ == messages@[j + t]@,
        decreases mlen - k,
    {
        out.push(messages[k].clone());
        k += 1;
    }
    proof {
        assert forall|t: int| 0 <= t < out@.len() implies messages_view(out@)[t] == messages_view(
            messages@,
        ).skip(j as int)[t] by {
            assert(out@[t]@ == messages@[j + t]@);
        }
        assert(messages_view(out@) =~~= messages_view(messages@).skip(j as int));
    }
    *messages = out;
}

/// Finds the response to the open message of the client that started the
/// poller and keeps all messages following it, inclusive, in their original
/// order; with no such marker the whole batch is discarded. An undecodable
/// content among the scanned messages is an error and leaves the batch
/// untouched.
pub fn filter_messages_of_first_polling_iteration(
    messages: &mut Vec<CanisterOutputMessage>,
    first_client_principal: &ClientPrincipal,
) -> (r: Result<(), String>)
    ensures
        match filter_first_iteration_spec(
            messages_view(old(messages)@),
            first_client_principal@,
        ) {
            Some(s) => r is Ok && messages_view(final(messages)@) == s,
            None => r is Err && final(messages)@ == old(messages)@,
        },
{
    let ghost mv = messages_view(messages@);
    let mlen: usize = messages.len();
    let mut i: usize = mlen;
    proof {
        assert(mv.subrange(0, mlen as int) =~~= mv);
    }
    while i > 0
        invariant
            i <= mlen,
            mlen == messages@.len(),
            messages@ == old(messages)@,
            mv == messages_view(messages@),
            filter_scan(mv, first_client_principal@) == filter_scan(
                mv.subrange(0, i as int),
                first_client_principal@,
            ),
        decreases i,
    {
        let c = classify_message(&messages[i - 1].content, first_client_principal);
        proof {
            let pre = mv.subrange(0, i as int);
            assert(pre.last() == mv[i - 1]);
            assert(mv[i - 1] == messages@[i - 1]@);
            assert(pre.drop_last() =~~= mv.subrange(0, i - 1));
        }
        match c {
            MsgClass::Undecodable => {
                return Err(String::from_str("message content is not a websocket message"));
            },
            MsgClass::Marker => {
                proof {
                    assert(filter_scan(mv, first_client_principal@) == FilterScan::Found(i - 1));
                }
                keep_suffix(messages, i - 1);
                return Ok(());
            },
            MsgClass::Plain => {
                i -= 1;
            },
        }
    }
    proof {
        assert(mv.subrange(0, 0) =~~= Seq::<CanisterOutputMessageV>::empty());
    }
    messages.clear();
    proof {
        assert(messages_view(messages@) =~~= Seq::<CanisterOutputMessageV>::empty());
    }
    Ok(())
}

/// Applies the first-iteration filter when the poller has not yet resumed
/// from a nonce; on later iterations every polled message is fresh by the
/// resume-nonce contract and the batch is left as it is.
pub fn filter_canister_messages(
    messages: &mut Vec<CanisterOutputMessage>,
    message_nonce: u64,
    first_client_principal: &ClientPrincipal,
) -> (r: Result<(), String>)
    ensures
        message_nonce != 0 ==> r is Ok && final(messages)@ == old(messages)@,
        message_nonce == 0 ==> match filter_first_iteration_spec(
            messages_view(old(messages)@),
            first_client_principal@,
        ) {
            Some(s) => r is Ok && messages_view(final(messages)@) == s,
            None => r is Err && final(messages)@ == old(messages)@,
        },
{
    if message_nonce == 0 {
        filter_messages_of_first_polling_iteration(messages, first_client_principal)
    } else {
        Ok(())
    }
}

/// A found marker is a marker, and everything newer than it is plain.
proof fn lemma_filter_scan_found(msgs: Seq<CanisterOutputMessageV>, first: Seq<u8>, j: int)
    requires
        filter_scan(msgs, first) == FilterScan::Found(j),
    ensures
        0 <= j < msgs.len(),
        classify_msg(msgs[j].content, first) == MsgClass::Marker,
        forall|k: int|
            j < k < msgs.len() ==> classify_msg(#[trigger] msgs[k].content, first)
                == MsgClass::Plain,
    decreases msgs.len(),
{
    if msgs.len() > 0 {
        match classify_msg(msgs.last().content, first) {
            MsgClass::Marker => {},
            MsgClass::Plain => {
                lemma_filter_scan_found(msgs.drop_last(), first, j);
                assert(msgs.drop_last()[j] == msgs[j]);
                assert forall|k: int| j < k < msgs.len() implies classify_msg(
                    #[trigger] msgs[k].content,
                    first,
                ) == MsgClass::Plain by {
                    if k < msgs.len() - 1 {
                        assert(msgs.drop_last()[k] == msgs[k]);
                    } else {
                        assert(msgs[k] == msgs.last());
                    }
                }
            },
            MsgClass::Undecodable => {},
        }
    }
}

/// A sequence whose first entry is a marker and whose rest is plain scans
/// to that first entry.
proof fn lemma_filter_scan_of_suffix(t: Seq<CanisterOutputMessageV>, first: Seq<u8>)
    requires
        t.len() > 0,
        classify_msg(t[0].content, first) == MsgClass::Marker,
        forall|k: int|
            0 < k < t.len() ==> classify_msg(#[trigger] t[k].content, first) == MsgClass::Plain,
    ensures
        filter_scan(t, first) == FilterScan::Found(0),
    decreases t.len(),
{
    if t.len() == 1 {
        assert(t.last() == t[0]);
    } else {
        assert(t.last() == t[t.len() - 1]);
        assert(classify_msg(t.last().content, first) == MsgClass::Plain);
        let pre = t.drop_last();
        assert(pre[0] == t[0]);
        assert forall|k: int| 0 < k < pre.len() implies classify_msg(
            #[trigger] pre[k].content,
            first,
        ) == MsgClass::Plain by {
            assert(pre[k] == t[k]);
        }
        lemma_filter_scan_of_suffix(pre, first);
    }
}

/// Running the first-iteration filter on its own output changes nothing:
/// the filter is idempotent.
pub proof fn lemma_filter_idempotent(msgs: Seq<CanisterOutputMessageV>, first: Seq<u8>)
    requires
        filter_first_iteration_spec(msgs, first) is Some,
    ensures
        ({
            let s = filter_first_iteration_spec(msgs, first).unwrap();
            filter_first_iteration_spec(s, first) == Some(s)
        }),
{
    match filter_scan(msgs, first) {
        FilterScan::Undecodable => {},
        FilterScan::NotFound => {
            let s = filter_first_iteration_spec(msgs, first).unwrap();
            assert(s =~~= Seq::<CanisterOutputMessageV>::empty());
        },
        FilterScan::Found(j) => {
            lemma_filter_scan_found(msgs, first, j);
            let s = msgs.skip(j);
            assert(s[0] == msgs[j]);
            assert forall|k: int| 0 < k < s.len() implies classify_msg(
                #[trigger] s[k].content,
                first,
            ) == MsgClass::Plain by {
                assert(s[k] == msgs[j + k]);
            }
            lemma_filter_scan_of_suffix(s, first);
            assert(s.skip(0) =~~= s);
        },
    }
}

/// The filter keeps an empty batch empty.
pub proof fn lemma_filter_empty(first: Seq<u8>)
    ensures
        filter_first_iteration_spec(Seq::<CanisterOutputMessageV>::empty(), first) == Some(
            Seq::<CanisterOutputMessageV>::empty(),
        ),
{
}

/// A decodable batch holding no marker for the first client is discarded
/// whole.
pub proof fn lemma_filter_no_marker(msgs: Seq<CanisterOutputMessageV>, first: Seq<u8>)
    requires
        forall|k: int|
            0 <= k < msgs.len() ==> classify_msg(#[trigger] msgs[k].content, first)
                == MsgClass::Plain,
    ensures
        filter_first_iteration_spec(msgs, first) == Some(Seq::<CanisterOutputMessageV>::empty()),
{
    lemma_scan_all_plain(msgs, first);
}

/// A batch of nothing but plain messages scans to no marker.
proof fn lemma_scan_all_plain(msgs: Seq<CanisterOutputMessageV>, first: Seq<u8>)
    requires
        forall|k: int|
            0 <= k < msgs.len() ==> classify_msg(#[trigger] msgs[k].content, first)
                == MsgClass::Plain,
    ensures
        filter_scan(msgs, first) == FilterScan::NotFound,
    decreases msgs.len(),
{
    if msgs.len() > 0 {
        assert(msgs.last() == msgs[msgs.len() - 1]);
        let pre = msgs.drop_last();
        assert forall|k: int| 0 <= k < pre.len() implies classify_msg(
            #[trigger] pre[k].content,
            first,
        ) == MsgClass::Plain by {
            assert(pre[k] == msgs[k]);
        }
        lemma_scan_all_plain(pre, first);
    }
}

// --- Poller state and transitions ---

/// The static identity of one poller: which canister it serves and how
/// often it polls. The task loop around it lives outside this crate.
pub struct CanisterPoller {
    pub canister_id: CanisterId,
    pub polling_interval_ms: u64,
}

impl CanisterPoller {
    pub fn new(canister_id: CanisterId, polling_interval_ms: u64) -> (r: Self)
        ensures
            r.canister_id@ == canister_id@,
            r.polling_interval_ms == polling_interval_ms,
    {
        CanisterPoller { canister_id, polling_interval_ms }
    }
}

/// The state one poller task keeps: the resume nonce, the registered
/// clients — whose sinks the task holds, keyed by principal — the holding
/// queues for clients not yet registered, and the client present at spawn,
/// which anchors the first-iteration filter.
pub struct PollerState {
    pub canister_id: CanisterId,
    pub first_client: ClientPrincipal,
    pub message_nonce: u64,
    pub polling_iteration: u64,
    pub client_registry: ClientRegistry,
    pub holding_queues: HoldingQueues,
}

/// What a poll completion or a fatal error asks the caller to do: the
/// deliveries to perform in order, and the termination to signal, if any.
pub struct PollOutcome {
    pub deliveries: Vec<(ClientPrincipal, IcWsConnectionUpdate)>,
    pub termination: Option<TerminationInfo>,
}

/// Registered principals and queue keys are unique.
pub open spec fn poller_wf(s: &PollerState) -> bool {
    reg_wf(s.client_registry@) && q_wf(s.holding_queues@)
}

impl PollerState {
    /// A poller starts with the client whose arrival spawned it already
    /// registered, so its first batch has somewhere to go.
    pub fn new(canister_id: CanisterId, first_client: ClientPrincipal) -> (r: Self)
        ensures
            poller_wf(&r),
            r.canister_id@ == canister_id@,
            r.first_client@ == first_client@,
            r.message_nonce == 0,
            r.polling_iteration == 0,
            r.client_registry@ == seq![first_client@],
            r.holding_queues@ == Seq::<QueueEntryV>::empty(),
    {
        let first = first_client.clone();
        let mut client_registry = ClientRegistry::new();
        client_registry.insert(first);
        let r = PollerState {
            canister_id,
            first_client,
            message_nonce: 0,
            polling_iteration: 0,
            client_registry,
            holding_queues: HoldingQueues::new(),
        };
        proof {
            assert(r.client_registry@ =~~= seq![r.first_client@]);
        }
        r
    }

    /// Processes one intake event from the connection manager. A new client
    /// is registered; its queued messages, if any, go out at the next batch
    /// boundary. A disconnection removes the client's registration and its
    /// holding queue, and when the last registration goes, the poller is
    /// done: the caller must signal the returned termination and stop.
    pub fn handle_intake(&mut self, channel_data: PollerToClientChannelData) -> (r: Option<
        TerminationInfo,
    >)
        requires
            poller_wf(old(self)),
        ensures
            poller_wf(final(self)),
            final(self).canister_id@ == old(self).canister_id@,
            final(self).first_client@ == old(self).first_client@,
            final(self).message_nonce == old(self).message_nonce,
            final(self).polling_iteration == old(self).polling_iteration,
            match channel_data {
                PollerToClientChannelData::NewClientChannel(p) => {
                    &&& final(self).client_registry@ == r_insert(old(self).client_registry@, p@)
                    &&& final(self).holding_queues@ == old(self).holding_queues@
                    &&& r is None
                },
                PollerToClientChannelData::ClientDisconnected(p) => {
                    &&& final(self).client_registry@ == r_remove(old(self).client_registry@, p@)
                    &&& final(self).holding_queues@ == q_remove(old(self).holding_queues@, p@)
                    &&& if final(self).client_registry@.len() == 0 {
                        r matches Some(t) && t@ == TerminationInfoV::LastClientDisconnected(
                            old(self).canister_id@,
                        )
                    } else {
                        r is None
                    }
                },
            },
    {
        match channel_data {
            PollerToClientChannelData::NewClientChannel(client_principal) => {
                proof {
                    lemma_r_insert_spec(self.client_registry@, client_principal@);
                }
                self.client_registry.insert(client_principal);
                None
            },
            PollerToClientChannelData::ClientDisconnected(client_principal) => {
                proof {
                    lemma_r_remove_spec(self.client_registry@, client_principal@);
                    lemma_q_remove_spec(self.holding_queues@, client_principal@);
                }
                self.client_registry.remove(&client_principal);
                self.holding_queues.remove_entry(&client_principal);
                if self.client_registry.is_empty() {
                    Some(TerminationInfo::LastClientDisconnected(self.canister_id.clone()))
                } else {
                    None
                }
            },
        }
    }

    /// The pure tail of one poll: applies the first-iteration filter to
    /// what the backend returned and keeps the batch only if something is
    /// left. `None` in — the poll failed — or out means the iteration is
    /// dropped and the caller simply polls again.
    pub fn get_canister_updates(&self, fetched: Option<CanisterOutputCertifiedMessages>) -> (r:
        Option<CanisterOutputCertifiedMessages>)
        ensures
            match fetched {
                None => r is None,
                Some(b) => match filtered_batch(
                    b@,
                    self.message_nonce,
                    self.first_client@,
                ) {
                    None => r is None,
                    Some(fb) => r matches Some(out) && out@ == fb,
                },
            },
    {
        match fetched {
            None => None,
            Some(mut b) => {
                match filter_canister_messages(
                    &mut b.messages,
                    self.message_nonce,
                    &self.first_client,
                ) {
                    Err(_) => None,
                    Ok(()) => {
                        if b.messages.len() > 0 {
                            Some(b)
                        } else {
                            None
                        }
                    },
                }
            },
        }
    }

    /// Processes one poll completion. The holding queues are drained first,
    /// so old queued messages precede newly polled ones per client; then
    /// the batch, if any, is relayed. A fatal key error broadcasts an error
    /// to every registered client and asks the caller to signal backend
    /// failure and stop.
    pub fn handle_poll_result(&mut self, batch: Option<CanisterOutputCertifiedMessages>) -> (r:
        PollOutcome)
        requires
            poller_wf(old(self)),
        ensures
            poller_wf(final(self)),
            final(self).canister_id@ == old(self).canister_id@,
            final(self).first_client@ == old(self).first_client@,
            final(self).client_registry@ == old(self).client_registry@,
            batch is None ==> ({
                let (dds, kept) = drain_spec(
                    old(self).holding_queues@,
                    old(self).client_registry@,
                );
                &&& deliveries_view(r.deliveries@) == dds
                &&& final(self).holding_queues@ == kept
                &&& final(self).message_nonce == old(self).message_nonce
                &&& final(self).polling_iteration == old(self).polling_iteration
                &&& r.termination is None
            }),
            batch matches Some(b) ==> ({
                let (dds, kept) = drain_spec(
                    old(self).holding_queues@,
                    old(self).client_registry@,
                );
                let (rds, qs2, n2, failed) = relay_batch_spec(
                    b@.messages,
                    b@.cert,
                    b@.tree,
                    old(self).client_registry@,
                    kept,
                    old(self).message_nonce,
                );
                &&& final(self).holding_queues@ == qs2
                &&& final(self).message_nonce == n2
                &&& !failed ==> deliveries_view(r.deliveries@) == dds + rds && r.termination
                    is None && final(self).polling_iteration == (
                    if old(self).polling_iteration < 0xffffffffffffffff {
                        old(self).polling_iteration + 1
                    } else {
                        old(self).polling_iteration as int
                    })
                &&& failed ==> ({
                    let reg = old(self).client_registry@;
                    let base = dds + rds;
                    &&& r.deliveries@.len() == base.len() + reg.len()
                    &&& deliveries_view(r.deliveries@).subrange(0, base.len() as int) == base
                    &&& forall|k: int|
                        base.len() <= k < r.deliveries@.len() ==> (
                        #[trigger] deliveries_view(r.deliveries@)[k]).0 == reg[k - base.len()]
                            && deliveries_view(r.deliveries@)[k].1 is Error
                            && deliveries_view(r.deliveries@)[k].1 == deliveries_view(
                            r.deliveries@,
                        )[base.len() as int].1
                    &&& r.termination matches Some(t) && t@ == TerminationInfoV::BackendError(
                        old(self).canister_id@,
                    )
                    &&& final(self).polling_iteration == old(self).polling_iteration
                })
            }),
    {
        let mut deliveries = process_queues(&mut self.holding_queues, &self.client_registry);
        let ghost dds = deliveries_view(deliveries@);
        proof {
            lemma_drain_wf(old(self).holding_queues@, old(self).client_registry@);
        }
        let mut termination: Option<TerminationInfo> = None;
        match batch {
            Some(b) => {
                let (mut ds2, err) = relay_messages(
                    &b,
                    &self.client_registry,
                    &mut self.holding_queues,
                    &mut self.message_nonce,
                );
                let ghost rds = deliveries_view(ds2@);
                proof {
                    lemma_relay_batch_wf(
                        b@.messages,
                        b@.cert,
                        b@.tree,
                        self.client_registry@,
                        drain_spec(old(self).holding_queues@, old(self).client_registry@).1,
                        old(self).message_nonce,
                    );
                }
                deliveries.append(&mut ds2);
                proof {
                    assert(deliveries_view(deliveries@) =~~= dds + rds);
                }
                match err {
                    Some(e) => {
                        let (t, mut errs) = signal_termination_and_cleanup(
                            &self.canister_id,
                            &self.client_registry,
                            e,
                        );
                        let ghost base = deliveries_view(deliveries@);
                        let ghost ev = errs@;
                        deliveries.append(&mut errs);
                        termination = Some(t);
                        proof {
                            assert(deliveries_view(deliveries@).subrange(0, base.len() as int)
                                =~~= base);
                            assert forall|k: int|
                                base.len() <= k < deliveries@.len() implies (
                            #[trigger] deliveries_view(deliveries@)[k]).0
                                == self.client_registry@[k - base.len()] && deliveries_view(
                                deliveries@,
                            )[k].1 is Error by {
                                assert(deliveries@[k] == ev[k - base.len()]);
                            }
                        }
                    },
                    None => {
                        if self.polling_iteration < 0xffffffffffffffff {
                            self.polling_iteration = self.polling_iteration + 1;
                        }
                    },
                }
            },
            None => {},
        }
        PollOutcome { deliveries, termination }
    }
}

/// The batch one poll hands onward: the first-iteration filter applied when
/// the poller has not yet resumed from a nonce, and nothing at all when the
/// filter errs or leaves the batch empty.
pub open spec fn filtered_batch(
    b: crate::types::CanisterOutputCertifiedMessagesV,
    nonce: u64,
    first: Seq<u8>,
) -> Option<crate::types::CanisterOutputCertifiedMessagesV> {
    let filtered = if nonce == 0 {
        filter_first_iteration_spec(b.messages, first)
    } else {
        Some(b.messages)
    };
    match filtered {
        None => None,
        Some(s) => if s.len() == 0 {
            None
        } else {
            Some(
                crate::types::CanisterOutputCertifiedMessagesV {
                    messages: s,
                    cert: b.cert,
                    tree: b.tree,
                },
            )
        },
    }
}

/// A drain pass keeps the queue keys unique.
proof fn lemma_drain_wf(qs: Seq<QueueEntryV>, reg: Seq<Seq<u8>>)
    requires
        q_wf(qs),
    ensures
        q_wf(drain_spec(qs, reg).1),
{
    crate::demux::lemma_drain_spec(qs, reg, Seq::empty());
}

/// Relaying a batch keeps the queue keys unique.
proof fn lemma_relay_batch_wf(
    msgs: Seq<CanisterOutputMessageV>,
    cert: Seq<u8>,
    tree: Seq<u8>,
    reg: Seq<Seq<u8>>,
    qs: Seq<QueueEntryV>,
    nonce: u64,
)
    requires
        q_wf(qs),
    ensures
        q_wf(relay_batch_spec(msgs, cert, tree, reg, qs, nonce).1),
    decreases msgs.len(),
{
    if msgs.len() > 0 {
        lemma_relay_batch_wf(msgs.drop_last(), cert, tree, reg, qs, nonce);
        let (ds1, qs1, n1, f1) = relay_batch_spec(msgs.drop_last(), cert, tree, reg, qs, nonce);
        if !f1 {
            let m = msgs.last();
            let c2c = crate::demux::c2c_of(m, cert, tree);
            if !reg.contains(m.client_principal) && crate::demux::relay_message_spec(
                m.client_principal,
                c2c,
                reg,
                qs1,
                n1,
            ) is Some {
                crate::demux::lemma_q_append_wf_pub(qs1, m.client_principal, c2c);
            }
        }
    }
}

/// Every principal the poller no longer has registered receives nothing
/// more: after a disconnection the registry lacks it, and no delivery of a
/// drain pass or a batch — failed or not — addresses an unregistered
/// principal. Error broadcasts go to the registry only, too.
pub proof fn lemma_no_delivery_when_unregistered(
    msgs: Seq<CanisterOutputMessageV>,
    cert: Seq<u8>,
    tree: Seq<u8>,
    reg: Seq<Seq<u8>>,
    qs: Seq<QueueEntryV>,
    nonce: u64,
    p: Seq<u8>,
)
    requires
        q_wf(qs),
        !reg.contains(p),
    ensures
        crate::demux::deliveries_for(drain_spec(qs, reg).0, p) == Seq::<
            IcWsConnectionUpdateV,
        >::empty(),
        crate::demux::deliveries_for(
            relay_batch_spec(msgs, cert, tree, reg, qs, nonce).0,
            p,
        ) == Seq::<IcWsConnectionUpdateV>::empty(),
{
    crate::demux::lemma_drain_spec(qs, reg, p);
    crate::demux::lemma_relay_batch_targets_registered(msgs, cert, tree, reg, qs, nonce);
    lemma_deliveries_for_absent(relay_batch_spec(msgs, cert, tree, reg, qs, nonce).0, p);
}

/// A delivery list that never names a principal delivers nothing to it.
proof fn lemma_deliveries_for_absent(ds: Seq<DeliveryV>, p: Seq<u8>)
    requires
        forall|k: int| 0 <= k < ds.len() ==> (#[trigger] ds[k]).0 != p,
    ensures
        crate::demux::deliveries_for(ds, p) == Seq::<IcWsConnectionUpdateV>::empty(),
    decreases ds.len(),
{
    if ds.len() > 0 {
        assert(ds.last() == ds[ds.len() - 1]);
        let pre = ds.drop_last();
        assert forall|k: int| 0 <= k < pre.len() implies (#[trigger] pre[k]).0 != p by {
            assert(pre[k] == ds[k]);
        }
        lemma_deliveries_for_absent(pre, p);
    }
}

/// Disconnecting the only registered client empties the registry, so the
/// poller terminates with exactly one last-client notice.
pub proof fn lemma_last_client_disconnect_empties(p: Seq<u8>)
    ensures
        r_remove(seq![p], p).len() == 0,
{
    assert(seq![p].first() == p);
    assert(r_remove(seq![p], p) =~~= seq![p].drop_first());
}

/// Registering a client and disconnecting it straight after leaves neither
/// a registration nor a queued message for it, and no other client's
/// registration or queue changes.
pub proof fn lemma_connect_then_disconnect(
    reg: Seq<Seq<u8>>,
    qs: Seq<QueueEntryV>,
    p: Seq<u8>,
)
    requires
        reg_wf(reg),
        q_wf(qs),
    ensures
        !r_remove(r_insert(reg, p), p).contains(p),
        crate::demux::q_get(q_remove(qs, p), p) is None,
        forall|q: Seq<u8>|
            q != p ==> (r_remove(r_insert(reg, p), p).contains(q) == reg.contains(q)),
        forall|q: Seq<u8>|
            q != p ==> crate::demux::q_get(q_remove(qs, p), q) == crate::demux::q_get(qs, q),
{
    lemma_r_insert_spec(reg, p);
    lemma_r_remove_spec(r_insert(reg, p), p);
    lemma_q_remove_spec(qs, p);
}

/// Per client, what a poll completion delivers is exactly the client's old
/// holding queue followed by its messages of the fresh batch, in order:
/// first-in-first-out order holds across the queue boundary, and the
/// sequence numbers the canister assigned arrive in their batch order.
pub proof fn lemma_per_client_fifo(
    msgs: Seq<CanisterOutputMessageV>,
    cert: Seq<u8>,
    tree: Seq<u8>,
    reg: Seq<Seq<u8>>,
    qs: Seq<QueueEntryV>,
    nonce: u64,
    p: Seq<u8>,
)
    requires
        q_wf(qs),
        reg.contains(p),
        relay_batch_spec(msgs, cert, tree, reg, drain_spec(qs, reg).1, nonce).3 == false,
    ensures
        ({
            let (dds, kept) = drain_spec(qs, reg);
            let (rds, _, _, _) = relay_batch_spec(msgs, cert, tree, reg, kept, nonce);
            crate::demux::deliveries_for(dds + rds, p) == ((match crate::demux::q_get(qs, p) {
                Some(q) => q,
                None => Seq::<CanisterToClientMessageV>::empty(),
            }) + crate::demux::batch_for(msgs, cert, tree, p)).map_values(
                |m: CanisterToClientMessageV| IcWsConnectionUpdateV::Message(m),
            )
        }),
{
    let (dds, kept) = drain_spec(qs, reg);
    let (rds, _, _, _) = relay_batch_spec(msgs, cert, tree, reg, kept, nonce);
    crate::demux::lemma_drain_spec(qs, reg, p);
    crate::demux::lemma_relay_batch_routes(msgs, cert, tree, reg, kept, nonce, p);
    crate::demux::lemma_deliveries_for_concat(dds, rds, p);
    let q0 = match crate::demux::q_get(qs, p) {
        Some(q) => q,
        None => Seq::<CanisterToClientMessageV>::empty(),
    };
    let bf = crate::demux::batch_for(msgs, cert, tree, p);
    assert(crate::demux::deliveries_for(dds, p) =~~= q0.map_values(
        |m: CanisterToClientMessageV| IcWsConnectionUpdateV::Message(m),
    ));
    assert((q0 + bf).map_values(|m: CanisterToClientMessageV| IcWsConnectionUpdateV::Message(m))
        =~~= q0.map_values(|m: CanisterToClientMessageV| IcWsConnectionUpdateV::Message(m))
        + bf.map_values(|m: CanisterToClientMessageV| IcWsConnectionUpdateV::Message(m)));
}

/// On a fatal batch error the poller reports backend failure for its
/// canister and hands every registered client exactly one error notice
/// carrying the triggering error's text, so every connection it served can
/// close knowing why.
pub fn signal_termination_and_cleanup(
    canister_id: &CanisterId,
    client_registry: &ClientRegistry,
    e: String,
) -> (r: (TerminationInfo, Vec<(ClientPrincipal, IcWsConnectionUpdate)>))
    ensures
        r.0@ == TerminationInfoV::BackendError(canister_id@),
        r.1@.len() == client_registry@.len(),
        forall|k: int|
            0 <= k < r.1@.len() ==> (#[trigger] r.1@[k]).0@ == client_registry@[k]
                && r.1@[k].1@ == IcWsConnectionUpdateV::Error(
                "terminating poller task due to error: "@ + e@,
            ),
{
    let info = TerminationInfo::BackendError(canister_id.clone());
    let mut updates: Vec<(ClientPrincipal, IcWsConnectionUpdate)> = Vec::new();
    let n: usize = client_registry.len();
    let mut i: usize = 0;
    let msg = String::from_str("terminating poller task due to error: ").concat(e.as_str());
    while i < n
        invariant
            i <= n,
            n == client_registry@.len(),
            msg@ == "terminating poller task due to error: "@ + e@,
            updates@.len() == i,
            forall|k: int|
                0 <= k < i ==> (#[trigger] updates@[k]).0@ == client_registry@[k]
                    && updates@[k].1@ == IcWsConnectionUpdateV::Error(msg@),
        decreases n - i,
    {
        let p = client_registry.get(i).clone();
        updates.push((p, IcWsConnectionUpdate::Error(msg.clone())));
        i += 1;
    }
    (info, updates)
}

/// What one client is owed by one poll completion: its held queue followed
/// by its messages of the fresh batch.
pub open spec fn held_then_polled(
    qs: Seq<QueueEntryV>,
    msgs: Seq<CanisterOutputMessageV>,
    cert: Seq<u8>,
    tree: Seq<u8>,
    p: Seq<u8>,
) -> Seq<CanisterToClientMessageV> {
    (match crate::demux::q_get(qs, p) {
        Some(q) => q,
        None => Seq::<CanisterToClientMessageV>::empty(),
    }) + crate::demux::batch_for(msgs, cert, tree, p)
}

/// What a client's socket observes of one poll completion, position by
/// position: where the messages held and polled for a client carry
/// consecutive sequence numbers from some starting value, the deliveries
/// on its socket carry exactly those numbers, strictly increasing and
/// contiguous. The gateway preserves the order; the numbering itself is the
/// canister's.
pub proof fn lemma_socket_sequence_contiguous(
    msgs: Seq<CanisterOutputMessageV>,
    cert: Seq<u8>,
    tree: Seq<u8>,
    reg: Seq<Seq<u8>>,
    qs: Seq<QueueEntryV>,
    nonce: u64,
    p: Seq<u8>,
    s0: u64,
)
    requires
        q_wf(qs),
        reg.contains(p),
        relay_batch_spec(msgs, cert, tree, reg, drain_spec(qs, reg).1, nonce).3 == false,
        forall|k: int|
            0 <= k < held_then_polled(qs, msgs, cert, tree, p).len() ==> ((
            #[trigger] dec_websocket_message(
                held_then_polled(qs, msgs, cert, tree, p)[k].content,
            )) matches Some(w) && w.sequence_num == s0 + k),
    ensures
        ({
            let (dds, kept) = drain_spec(qs, reg);
            let (rds, _, _, _) = relay_batch_spec(msgs, cert, tree, reg, kept, nonce);
            let observed = crate::demux::deliveries_for(dds + rds, p);
            forall|k: int|
                0 <= k < observed.len() ==> ((#[trigger] observed[k]) matches
                    IcWsConnectionUpdateV::Message(m) && (dec_websocket_message(m.content) matches
                    Some(w) && w.sequence_num == s0 + k))
        }),
{
    lemma_per_client_fifo(msgs, cert, tree, reg, qs, nonce, p);
    let run = held_then_polled(qs, msgs, cert, tree, p);
    let (dds, kept) = drain_spec(qs, reg);
    let (rds, _, _, _) = relay_batch_spec(msgs, cert, tree, reg, kept, nonce);
    let observed = crate::demux::deliveries_for(dds + rds, p);
    let mapped = run.map_values(|m: CanisterToClientMessageV| IcWsConnectionUpdateV::Message(m));
    assert(observed == mapped);
    assert(observed.len() == run.len());
    assert forall|k: int| 0 <= k < observed.len() implies ((#[trigger] observed[k]) matches
        IcWsConnectionUpdateV::Message(m) && (dec_websocket_message(m.content) matches Some(w)
        && w.sequence_num == s0 + k)) by {
        assert(mapped[k] == IcWsConnectionUpdateV::Message(run[k]));
        assert(observed[k] == IcWsConnectionUpdateV::Message(run[k]));
        assert((dec_websocket_message(held_then_polled(qs, msgs, cert, tree, p)[k].content)
            matches Some(w) && w.sequence_num == s0 + k));
    }
}

/// First-in-first-out order also holds across poll completions: over two
/// successive polls with the same registrations, a client's socket observes
/// its held queue, then its messages of the first batch, then its messages
/// of the second batch, in exactly that order. After the first completion
/// the client's queue is empty, so nothing is reordered at the boundary.
pub proof fn lemma_fifo_across_iterations(
    msgs1: Seq<CanisterOutputMessageV>,
    cert1: Seq<u8>,
    tree1: Seq<u8>,
    msgs2: Seq<CanisterOutputMessageV>,
    cert2: Seq<u8>,
    tree2: Seq<u8>,
    reg: Seq<Seq<u8>>,
    qs: Seq<QueueEntryV>,
    nonce: u64,
    p: Seq<u8>,
)
    requires
        q_wf(qs),
        reg.contains(p),
        relay_batch_spec(msgs1, cert1, tree1, reg, drain_spec(qs, reg).1, nonce).3 == false,
        ({
            let (_, qs1, n1, _) = relay_batch_spec(
                msgs1,
                cert1,
                tree1,
                reg,
                drain_spec(qs, reg).1,
                nonce,
            );
            relay_batch_spec(msgs2, cert2, tree2, reg, drain_spec(qs1, reg).1, n1).3 == false
        }),
    ensures
        ({
            let (dds1, kept1) = drain_spec(qs, reg);
            let (rds1, qs1, n1, _) = relay_batch_spec(msgs1, cert1, tree1, reg, kept1, nonce);
            let (dds2, kept2) = drain_spec(qs1, reg);
            let (rds2, _, _, _) = relay_batch_spec(msgs2, cert2, tree2, reg, kept2, n1);
            crate::demux::deliveries_for(dds1 + rds1, p) + crate::demux::deliveries_for(
                dds2 + rds2,
                p,
            ) == (held_then_polled(qs, msgs1, cert1, tree1, p) + crate::demux::batch_for(
                msgs2,
                cert2,
                tree2,
                p,
            )).map_values(|m: CanisterToClientMessageV| IcWsConnectionUpdateV::Message(m))
        }),
{
    let (dds1, kept1) = drain_spec(qs, reg);
    let (rds1, qs1, n1, _) = relay_batch_spec(msgs1, cert1, tree1, reg, kept1, nonce);
    let (dds2, kept2) = drain_spec(qs1, reg);
    let (rds2, _, _, _) = relay_batch_spec(msgs2, cert2, tree2, reg, kept2, n1);
    lemma_per_client_fifo(msgs1, cert1, tree1, reg, qs, nonce, p);
    lemma_drain_wf(qs, reg);
    lemma_relay_batch_wf(msgs1, cert1, tree1, reg, kept1, nonce);
    crate::demux::lemma_drain_spec(qs, reg, p);
    crate::demux::lemma_relay_batch_routes(msgs1, cert1, tree1, reg, kept1, nonce, p);
    assert(crate::demux::q_get(qs1, p) is None);
    lemma_per_client_fifo(msgs2, cert2, tree2, reg, qs1, n1, p);
    let run1 = held_then_polled(qs, msgs1, cert1, tree1, p);
    let run2 = held_then_polled(qs1, msgs2, cert2, tree2, p);
    let b2 = crate::demux::batch_for(msgs2, cert2, tree2, p);
    assert(run2 =~~= b2);
    assert((run1 + b2).map_values(|m: CanisterToClientMessageV| IcWsConnectionUpdateV::Message(m))
        =~~= run1.map_values(|m: CanisterToClientMessageV| IcWsConnectionUpdateV::Message(m))
        + b2.map_values(|m: CanisterToClientMessageV| IcWsConnectionUpdateV::Message(m)));
}

} // verus!
