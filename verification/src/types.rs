//! Data model of the gateway core: principals, session keys, and the message
//! shapes exchanged between clients, the gateway and the canister.

use vstd::prelude::*;

verus! {

/// An opaque identity used by both clients and canisters: the raw bytes of an
/// IC principal.
#[derive(Debug)]
pub struct ClientPrincipal {
    bytes: Vec<u8>,
}

/// The identity of the backend canister a poller serves.
pub type CanisterId = ClientPrincipal;

impl View for ClientPrincipal {
    type V = Seq<u8>;

    closed spec fn view(&self) -> Seq<u8> {
        self.bytes@
    }
}

impl ClientPrincipal {
    pub fn from_bytes(bytes: Vec<u8>) -> (r: Self)
        ensures
            r@ == bytes@,
    {
        ClientPrincipal { bytes }
    }

    pub fn as_bytes(&self) -> (r: &Vec<u8>)
        ensures
            r@ == self@,
    {
        &self.bytes
    }
}

impl Clone for ClientPrincipal {
    fn clone(&self) -> (r: Self)
        ensures
            r@ == self@,
    {
        ClientPrincipal { bytes: clone_bytes(&self.bytes) }
    }
}

impl PartialEq for ClientPrincipal {
    fn eq(&self, other: &Self) -> (r: bool)
        ensures
            r == (self@ == other@),
    {
        bytes_eq(&self.bytes, &other.bytes)
    }
}

impl vstd::std_specs::cmp::PartialEqSpecImpl for ClientPrincipal {
    open spec fn obeys_eq_spec() -> bool {
        true
    }

    open spec fn eq_spec(&self, other: &Self) -> bool {
        self@ == other@
    }
}

/// A byte-for-byte copy of a byte vector.
pub fn clone_bytes(v: &Vec<u8>) -> (r: Vec<u8>)
    ensures
        r@ == v@,
{
    let mut r: Vec<u8> = Vec::new();
    let mut i: usize = 0;
    while i < v.len()
        invariant
            i <= v@.len(),
            r@ == v@.subrange(0, i as int),
        decreases v@.len() - i,
    {
        r.push(v[i]);
        i += 1;
        proof {
            assert(r@ =~= v@.subrange(0, i as int));
        }
    }
    proof {
        assert(r@ =~= v@);
    }
    r
}

/// Whether two byte vectors hold the same bytes.
pub fn bytes_eq(a: &Vec<u8>, b: &Vec<u8>) -> (r: bool)
    ensures
        r == (a@ == b@),
{
    if a.len() != b.len() {
        proof {
            assert(a@.len() != b@.len());
        }
        return false;
    }
    let mut i: usize = 0;
    while i < a.len()
        invariant
            i <= a@.len(),
            a@.len() == b@.len(),
            forall|j: int| 0 <= j < i ==> a@[j] == b@[j],
        decreases a@.len() - i,
    {
        if a[i] != b[i] {
            return false;
        }
        i += 1;
    }
    proof {
        assert(a@ =~= b@);
    }
    true
}

/// Identifies one client session: the same principal with a different nonce
/// is a distinct session.
#[derive(Debug)]
pub struct ClientKey {
    pub client_principal: ClientPrincipal,
    pub client_nonce: u64,
}

#[verifier::ext_equal]
pub struct ClientKeyV {
    pub client_principal: Seq<u8>,
    pub client_nonce: u64,
}

impl View for ClientKey {
    type V = ClientKeyV;

    open spec fn view(&self) -> ClientKeyV {
        ClientKeyV { client_principal: self.client_principal@, client_nonce: self.client_nonce }
    }
}

impl Clone for ClientKey {
    fn clone(&self) -> (r: Self)
        ensures
            r@ == self@,
    {
        ClientKey {
            client_principal: self.client_principal.clone(),
            client_nonce: self.client_nonce,
        }
    }
}

impl ClientKey {
    pub fn new(client_principal: ClientPrincipal, client_nonce: u64) -> (r: Self)
        ensures
            r@.client_principal == client_principal@,
            r@.client_nonce == client_nonce,
    {
        ClientKey { client_principal, client_nonce }
    }
}

/// A message addressed to one client, as carried inside the content of a
/// canister output message.
#[derive(Debug)]
pub struct WebsocketMessage {
    pub client_principal: ClientPrincipal,
    pub sequence_num: u64,
    pub timestamp: u64,
    pub is_service_message: bool,
    pub content: Vec<u8>,
}

#[verifier::ext_equal]
pub struct WebsocketMessageV {
    pub client_principal: Seq<u8>,
    pub sequence_num: u64,
    pub timestamp: u64,
    pub is_service_message: bool,
    pub content: Seq<u8>,
}

impl View for WebsocketMessage {
    type V = WebsocketMessageV;

    open spec fn view(&self) -> WebsocketMessageV {
        WebsocketMessageV {
            client_principal: self.client_principal@,
            sequence_num: self.sequence_num,
            timestamp: self.timestamp,
            is_service_message: self.is_service_message,
            content: self.content@,
        }
    }
}

/// Content of the service message acknowledging a freshly opened session.
#[derive(Debug)]
pub struct CanisterOpenMessageContent {
    pub client_principal: ClientPrincipal,
}

/// Content of the service message acknowledging received client messages.
#[derive(Debug)]
pub struct CanisterAckMessageContent {
    pub last_incoming_sequence_num: u64,
}

/// Control information carried inside a service-flagged `WebsocketMessage`,
/// understood by the gateway rather than by application code.
#[derive(Debug)]
pub enum CanisterServiceMessage {
    OpenMessage(CanisterOpenMessageContent),
    AckMessage(CanisterAckMessageContent),
}

#[verifier::ext_equal]
pub enum CanisterServiceMessageV {
    OpenMessage(Seq<u8>),
    AckMessage(u64),
}

impl View for CanisterServiceMessage {
    type V = CanisterServiceMessageV;

    open spec fn view(&self) -> CanisterServiceMessageV {
        match self {
            CanisterServiceMessage::OpenMessage(c) => CanisterServiceMessageV::OpenMessage(
                c.client_principal@,
            ),
            CanisterServiceMessage::AckMessage(c) => CanisterServiceMessageV::AckMessage(
                c.last_incoming_sequence_num,
            ),
        }
    }
}

/// One entry of the canister's outbound queue. The `key` is an opaque
/// gateway-scoped identifier whose decimal suffix is the message's nonce;
/// `content` is the encoding of a `WebsocketMessage`.
#[derive(Debug)]
pub struct CanisterOutputMessage {
    pub client_principal: ClientPrincipal,
    pub key: Vec<u8>,
    pub content: Vec<u8>,
}

#[verifier::ext_equal]
pub struct CanisterOutputMessageV {
    pub client_principal: Seq<u8>,
    pub key: Seq<u8>,
    pub content: Seq<u8>,
}

impl View for CanisterOutputMessage {
    type V = CanisterOutputMessageV;

    open spec fn view(&self) -> CanisterOutputMessageV {
        CanisterOutputMessageV {
            client_principal: self.client_principal@,
            key: self.key@,
            content: self.content@,
        }
    }
}

impl Clone for CanisterOutputMessage {
    fn clone(&self) -> (r: Self)
        ensures
            r@ == self@,
    {
        CanisterOutputMessage {
            client_principal: self.client_principal.clone(),
            key: clone_bytes(&self.key),
            content: clone_bytes(&self.content),
        }
    }
}

/// The certified payload shipped to a client over its socket.
#[derive(Debug)]
pub struct CanisterToClientMessage {
    pub key: Vec<u8>,
    pub content: Vec<u8>,
    pub cert: Vec<u8>,
    pub tree: Vec<u8>,
}

#[verifier::ext_equal]
pub struct CanisterToClientMessageV {
    pub key: Seq<u8>,
    pub content: Seq<u8>,
    pub cert: Seq<u8>,
    pub tree: Seq<u8>,
}

impl View for CanisterToClientMessage {
    type V = CanisterToClientMessageV;

    open spec fn view(&self) -> CanisterToClientMessageV {
        CanisterToClientMessageV {
            key: self.key@,
            content: self.content@,
            cert: self.cert@,
            tree: self.tree@,
        }
    }
}

impl Clone for CanisterToClientMessage {
    fn clone(&self) -> (r: Self)
        ensures
            r@ == self@,
    {
        CanisterToClientMessage {
            key: clone_bytes(&self.key),
            content: clone_bytes(&self.content),
            cert: clone_bytes(&self.cert),
            tree: clone_bytes(&self.tree),
        }
    }
}

/// A certified batch of outbound messages, as returned by one poll.
#[derive(Debug)]
pub struct CanisterOutputCertifiedMessages {
    pub messages: Vec<CanisterOutputMessage>,
    pub cert: Vec<u8>,
    pub tree: Vec<u8>,
}

#[verifier::ext_equal]
pub struct CanisterOutputCertifiedMessagesV {
    pub messages: Seq<CanisterOutputMessageV>,
    pub cert: Seq<u8>,
    pub tree: Seq<u8>,
}

impl View for CanisterOutputCertifiedMessages {
    type V = CanisterOutputCertifiedMessagesV;

    open spec fn view(&self) -> CanisterOutputCertifiedMessagesV {
        CanisterOutputCertifiedMessagesV {
            messages: self.messages@.map_values(|m: CanisterOutputMessage| m@),
            cert: self.cert@,
            tree: self.tree@,
        }
    }
}

/// Message sent by the gateway as soon as a WebSocket connection is accepted,
/// so that the client learns which principal will poll on its behalf.
#[derive(Debug)]
pub struct GatewayHandshakeMessage {
    pub gateway_principal: ClientPrincipal,
}

#[verifier::ext_equal]
pub struct GatewayHandshakeMessageV {
    pub gateway_principal: Seq<u8>,
}

impl View for GatewayHandshakeMessage {
    type V = GatewayHandshakeMessageV;

    open spec fn view(&self) -> GatewayHandshakeMessageV {
        GatewayHandshakeMessageV { gateway_principal: self.gateway_principal@ }
    }
}

/// Content of a signed request envelope. A call carries the full signed
/// field set — an optional freshness nonce, the expiry timestamp, the
/// sender, the target canister, the method name (as its bytes) and the
/// argument — since the signature covers exactly these. The gateway only
/// relays the call variant; anything else is a protocol violation.
#[derive(Debug)]
pub enum EnvelopeContent {
    Call {
        nonce: Option<Vec<u8>>,
        ingress_expiry: u64,
        sender: ClientPrincipal,
        canister_id: CanisterId,
        method_name: Vec<u8>,
        arg: Vec<u8>,
    },
    ReadState { sender: ClientPrincipal },
}

#[verifier::ext_equal]
pub enum EnvelopeContentV {
    Call {
        nonce: Option<Seq<u8>>,
        ingress_expiry: u64,
        sender: Seq<u8>,
        canister_id: Seq<u8>,
        method_name: Seq<u8>,
        arg: Seq<u8>,
    },
    ReadState { sender: Seq<u8> },
}

impl View for EnvelopeContent {
    type V = EnvelopeContentV;

    open spec fn view(&self) -> EnvelopeContentV {
        match self {
            EnvelopeContent::Call {
                nonce,
                ingress_expiry,
                sender,
                canister_id,
                method_name,
                arg,
            } => EnvelopeContentV::Call {
                nonce: match nonce {
                    Some(n) => Some(n@),
                    None => None,
                },
                ingress_expiry: *ingress_expiry,
                sender: sender@,
                canister_id: canister_id@,
                method_name: method_name@,
                arg: arg@,
            },
            EnvelopeContent::ReadState { sender } => EnvelopeContentV::ReadState {
                sender: sender@,
            },
        }
    }
}

/// A signed request to the backend: content plus signature material — the
/// sender's public key, then the signature — which the gateway carries
/// opaquely.
#[derive(Debug)]
pub struct Envelope {
    pub content: EnvelopeContent,
    pub sender_pubkey: Vec<u8>,
    pub sender_sig: Vec<u8>,
}

#[verifier::ext_equal]
pub struct EnvelopeV {
    pub content: EnvelopeContentV,
    pub sender_pubkey: Seq<u8>,
    pub sender_sig: Seq<u8>,
}

impl View for Envelope {
    type V = EnvelopeV;

    open spec fn view(&self) -> EnvelopeV {
        EnvelopeV {
            content: self.content@,
            sender_sig: self.sender_sig@,
            sender_pubkey: self.sender_pubkey@,
        }
    }
}

/// A frame sent by the client over its socket: the envelope of a signed
/// request to the backend.
#[derive(Debug)]
pub struct ClientRequest {
    pub envelope: Envelope,
}

#[verifier::ext_equal]
pub struct ClientRequestV {
    pub envelope: EnvelopeV,
}

impl View for ClientRequest {
    type V = ClientRequestV;

    open spec fn view(&self) -> ClientRequestV {
        ClientRequestV { envelope: self.envelope@ }
    }
}

/// Argument of the session-opening call: the per-session freshness token
/// chosen by the client.
#[derive(Debug)]
pub struct CanisterWsOpenArguments {
    pub client_nonce: u64,
}

#[verifier::ext_equal]
pub struct CanisterWsOpenArgumentsV {
    pub client_nonce: u64,
}

impl View for CanisterWsOpenArguments {
    type V = CanisterWsOpenArgumentsV;

    open spec fn view(&self) -> CanisterWsOpenArgumentsV {
        CanisterWsOpenArgumentsV { client_nonce: self.client_nonce }
    }
}

} // verus!
