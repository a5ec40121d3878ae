//! Client session core: the per-connection state machine that validates the
//! opening envelope, forwards client calls to the backend and relays
//! canister messages to the client. The socket itself and the backend agent
//! live outside this crate: events arrive as values, and each transition
//! returns the frame to send or the envelope to submit.

use vstd::prelude::*;

use crate::codec::{
    dec_client_request, dec_ws_open_arguments, decode_client_request, decode_ws_open_arguments,
    enc_canister_to_client_message, enc_envelope, enc_handshake, encode_canister_to_client_message,
    encode_envelope, encode_handshake_message,
};
use crate::poller::{IcWsConnectionUpdate, IcWsConnectionUpdateV};
use crate::types::{
    CanisterId, CanisterToClientMessage, CanisterToClientMessageV, ClientKey, ClientKeyV,
    ClientPrincipal, ClientRequest, EnvelopeContent, EnvelopeContentV, GatewayHandshakeMessage,
    CanisterWsOpenArguments, clone_bytes, bytes_eq,
};

verus! {

/// Errors of one session: the client broke the gateway's protocol, or the
/// socket itself failed.
#[derive(Debug)]
pub enum IcWsError {
    IcWsProtocol(String),
    WebSocket(String),
}

#[verifier::ext_equal]
pub enum IcWsErrorV {
    IcWsProtocol(Seq<char>),
    WebSocket(Seq<char>),
}

impl View for IcWsError {
    type V = IcWsErrorV;

    open spec fn view(&self) -> IcWsErrorV {
        match self {
            IcWsError::IcWsProtocol(s) => IcWsErrorV::IcWsProtocol(s@),
            IcWsError::WebSocket(s) => IcWsErrorV::WebSocket(s@),
        }
    }
}

/// The state of one session. Setup carries the raw opening frame, which the
/// connection manager forwards to the poller's world.
#[derive(Debug)]
pub enum IcWsSessionState {
    Init,
    Setup(Vec<u8>),
    Open,
    Closed,
}

#[verifier::ext_equal]
pub enum IcWsSessionStateV {
    Init,
    Setup(Seq<u8>),
    Open,
    Closed,
}

impl View for IcWsSessionState {
    type V = IcWsSessionStateV;

    open spec fn view(&self) -> IcWsSessionStateV {
        match self {
            IcWsSessionState::Init => IcWsSessionStateV::Init,
            IcWsSessionState::Setup(b) => IcWsSessionStateV::Setup(b@),
            IcWsSessionState::Open => IcWsSessionStateV::Open,
            IcWsSessionState::Closed => IcWsSessionStateV::Closed,
        }
    }
}

impl Clone for IcWsSessionState {
    fn clone(&self) -> (r: Self)
        ensures
            r@ == self@,
    {
        match self {
            IcWsSessionState::Init => IcWsSessionState::Init,
            IcWsSessionState::Setup(b) => IcWsSessionState::Setup(clone_bytes(b)),
            IcWsSessionState::Open => IcWsSessionState::Open,
            IcWsSessionState::Closed => IcWsSessionState::Closed,
        }
    }
}

impl PartialEq for IcWsSessionState {
    fn eq(&self, other: &Self) -> (r: bool)
        ensures
            r == (self@ == other@),
    {
        match (self, other) {
            (IcWsSessionState::Init, IcWsSessionState::Init) => true,
            (IcWsSessionState::Setup(a), IcWsSessionState::Setup(b)) => bytes_eq(a, b),
            (IcWsSessionState::Open, IcWsSessionState::Open) => true,
            (IcWsSessionState::Closed, IcWsSessionState::Closed) => true,
            _ => false,
        }
    }
}

impl vstd::std_specs::cmp::PartialEqSpecImpl for IcWsSessionState {
    open spec fn obeys_eq_spec() -> bool {
        true
    }

    open spec fn eq_spec(&self, other: &Self) -> bool {
        self@ == other@
    }
}

/// What arrived on the client's socket: a binary frame, some other frame
/// kind, a close, a transport error, or the end of the stream.
#[derive(Debug)]
pub enum ClientUpdate {
    Frame(Vec<u8>),
    NonBinaryFrame,
    Close,
    WsError(String),
    StreamEnded,
}

#[verifier::ext_equal]
pub enum ClientUpdateV {
    Frame(Seq<u8>),
    NonBinaryFrame,
    Close,
    WsError(Seq<char>),
    StreamEnded,
}

impl View for ClientUpdate {
    type V = ClientUpdateV;

    open spec fn view(&self) -> ClientUpdateV {
        match self {
            ClientUpdate::Frame(b) => ClientUpdateV::Frame(b@),
            ClientUpdate::NonBinaryFrame => ClientUpdateV::NonBinaryFrame,
            ClientUpdate::Close => ClientUpdateV::Close,
            ClientUpdate::WsError(e) => ClientUpdateV::WsError(e@),
            ClientUpdate::StreamEnded => ClientUpdateV::StreamEnded,
        }
    }
}

/// One event a session turn handles: something from the client's socket, or
/// something from the poller's channel.
#[derive(Debug)]
pub enum SessionEvent {
    Client(ClientUpdate),
    Canister(Option<IcWsConnectionUpdate>),
}

/// What a transition asks the caller to do: send a binary frame to the
/// client, or submit a signed envelope to a canister.
#[derive(Debug)]
pub enum SessionAction {
    SendFrame(Vec<u8>),
    SubmitToCanister(CanisterId, Vec<u8>),
}

#[verifier::ext_equal]
pub enum SessionActionV {
    SendFrame(Seq<u8>),
    SubmitToCanister(Seq<u8>, Seq<u8>),
}

impl View for SessionAction {
    type V = SessionActionV;

    open spec fn view(&self) -> SessionActionV {
        match self {
            SessionAction::SendFrame(b) => SessionActionV::SendFrame(b@),
            SessionAction::SubmitToCanister(c, b) => SessionActionV::SubmitToCanister(c@, b@),
        }
    }
}

/// The view of an optional action.
pub open spec fn opt_action_view(a: Option<SessionAction>) -> Option<SessionActionV> {
    match a {
        Some(x) => Some(x@),
        None => None,
    }
}

/// One client's session.
pub struct ClientSession {
    pub client_id: u64,
    pub client_key: Option<ClientKey>,
    pub canister_id: Option<CanisterId>,
    pub session_state: IcWsSessionState,
}

#[verifier::ext_equal]
pub struct ClientSessionV {
    pub client_id: u64,
    pub client_key: Option<ClientKeyV>,
    pub canister_id: Option<Seq<u8>>,
    pub session_state: IcWsSessionStateV,
}

impl View for ClientSession {
    type V = ClientSessionV;

    open spec fn view(&self) -> ClientSessionV {
        ClientSessionV {
            client_id: self.client_id,
            client_key: match &self.client_key {
                Some(k) => Some(k@),
                None => None,
            },
            canister_id: match &self.canister_id {
                Some(c) => Some(c@),
                None => None,
            },
            session_state: self.session_state@,
        }
    }
}

/// Once past Init, the session knows which canister and session key it
/// serves; they were set exactly once, on the Init-to-Setup transition.
pub open spec fn session_wf(s: ClientSessionV) -> bool {
    (s.session_state is Setup || s.session_state is Open) ==> s.canister_id is Some
        && s.client_key is Some
}

/// What a valid opening frame determines: the session key of the client and
/// the canister it wants, read from the call envelope and its argument.
pub open spec fn inspect_open_spec(b: Seq<u8>) -> Option<(ClientKeyV, Seq<u8>)> {
    match dec_client_request(b) {
        None => None,
        Some(req) => match req.envelope.content {
            EnvelopeContentV::Call { canister_id, sender, arg, .. } => match dec_ws_open_arguments(
                arg,
            ) {
                None => None,
                Some(oa) => Some(
                    (
                        ClientKeyV { client_principal: sender, client_nonce: oa.client_nonce },
                        canister_id,
                    ),
                ),
            },
            _ => None,
        },
    }
}

/// One session outcome at the specification level: an accepted event with
/// its optional action, a protocol violation, or a transport failure. The
/// two failures always leave the session Closed.
pub enum SessionOutcomeV {
    Accepted(Option<SessionActionV>),
    ProtocolViolation,
    TransportFailure,
}

/// The session transition for an event from the client's socket. Every
/// protocol violation — a bad or premature frame, a double open, an
/// undecodable or non-call request — closes the session, as does a
/// transport failure; a decode error counts as a protocol violation.
pub open spec fn client_update_spec(s: ClientSessionV, u: ClientUpdateV) -> (
    ClientSessionV,
    SessionOutcomeV,
) {
    let closed = ClientSessionV { session_state: IcWsSessionStateV::Closed, ..s };
    match s.session_state {
        IcWsSessionStateV::Init => match u {
            ClientUpdateV::WsError(_) => (closed, SessionOutcomeV::TransportFailure),
            ClientUpdateV::StreamEnded => (closed, SessionOutcomeV::TransportFailure),
            ClientUpdateV::Close => (closed, SessionOutcomeV::Accepted(None)),
            ClientUpdateV::NonBinaryFrame => (closed, SessionOutcomeV::ProtocolViolation),
            ClientUpdateV::Frame(b) => match inspect_open_spec(b) {
                None => (closed, SessionOutcomeV::ProtocolViolation),
                Some((ck, cid)) => if s.canister_id is Some || s.client_key is Some {
                    (closed, SessionOutcomeV::ProtocolViolation)
                } else {
                    (
                        ClientSessionV {
                            client_key: Some(ck),
                            canister_id: Some(cid),
                            session_state: IcWsSessionStateV::Setup(b),
                            ..s
                        },
                        SessionOutcomeV::Accepted(None),
                    )
                },
            },
        },
        IcWsSessionStateV::Setup(_) => match u {
            ClientUpdateV::WsError(_) => (closed, SessionOutcomeV::TransportFailure),
            ClientUpdateV::StreamEnded => (closed, SessionOutcomeV::TransportFailure),
            _ => (closed, SessionOutcomeV::ProtocolViolation),
        },
        IcWsSessionStateV::Open => match u {
            ClientUpdateV::WsError(_) => (closed, SessionOutcomeV::TransportFailure),
            ClientUpdateV::StreamEnded => (closed, SessionOutcomeV::TransportFailure),
            ClientUpdateV::Close => (closed, SessionOutcomeV::Accepted(None)),
            ClientUpdateV::NonBinaryFrame => (closed, SessionOutcomeV::ProtocolViolation),
            ClientUpdateV::Frame(b) => match dec_client_request(b) {
                None => (closed, SessionOutcomeV::ProtocolViolation),
                Some(req) => match req.envelope.content {
                    EnvelopeContentV::Call { .. } => (
                        s,
                        SessionOutcomeV::Accepted(
                            Some(
                                SessionActionV::SubmitToCanister(
                                    s.canister_id.unwrap(),
                                    enc_envelope(req.envelope),
                                ),
                            ),
                        ),
                    ),
                    _ => (closed, SessionOutcomeV::ProtocolViolation),
                },
            },
        },
        IcWsSessionStateV::Closed => (s, SessionOutcomeV::ProtocolViolation),
    }
}

/// The session transition for an update from the poller's channel. A fresh
/// message opens a Setup session or rides through an Open one; the
/// poller's error notice, or the channel vanishing, closes the session; a
/// message in Init or Closed is a violation and closes it too.
pub open spec fn canister_update_spec(s: ClientSessionV, u: Option<IcWsConnectionUpdateV>) -> (
    ClientSessionV,
    SessionOutcomeV,
) {
    let closed = ClientSessionV { session_state: IcWsSessionStateV::Closed, ..s };
    match u {
        None => (closed, SessionOutcomeV::TransportFailure),
        Some(IcWsConnectionUpdateV::Error(_)) => (closed, SessionOutcomeV::TransportFailure),
        Some(IcWsConnectionUpdateV::Message(m)) => match s.session_state {
            IcWsSessionStateV::Init => (closed, SessionOutcomeV::ProtocolViolation),
            IcWsSessionStateV::Setup(_) => (
                ClientSessionV { session_state: IcWsSessionStateV::Open, ..s },
                SessionOutcomeV::Accepted(
                    Some(SessionActionV::SendFrame(enc_canister_to_client_message(m))),
                ),
            ),
            IcWsSessionStateV::Open => (
                s,
                SessionOutcomeV::Accepted(
                    Some(SessionActionV::SendFrame(enc_canister_to_client_message(m))),
                ),
            ),
            IcWsSessionStateV::Closed => (s, SessionOutcomeV::ProtocolViolation),
        },
    }
}

/// The view of an optional poller update.
pub open spec fn opt_update_view(u: Option<IcWsConnectionUpdate>) -> Option<
    IcWsConnectionUpdateV,
> {
    match u {
        Some(x) => Some(x@),
        None => None,
    }
}

/// Relates an executable result to a specification outcome.
pub open spec fn outcome_matches(
    r: Result<Option<SessionAction>, IcWsError>,
    oc: SessionOutcomeV,
) -> bool {
    match oc {
        SessionOutcomeV::Accepted(a) => r matches Ok(act) && opt_action_view(act) == a,
        SessionOutcomeV::ProtocolViolation => r matches Err(e) && e@ is IcWsProtocol,
        SessionOutcomeV::TransportFailure => r matches Err(e) && e@ is WebSocket,
    }
}

impl ClientSession {
    /// Starts a session and returns the handshake frame the caller must
    /// send at once, so that the client learns which principal polls on its
    /// behalf.
    pub fn init(client_id: u64, gateway_principal: ClientPrincipal) -> (r: (Self, Vec<u8>))
        ensures
            session_wf(r.0@),
            r.0@.client_id == client_id,
            r.0@.client_key is None,
            r.0@.canister_id is None,
            r.0@.session_state == IcWsSessionStateV::Init,
            r.1@ == enc_handshake(
                crate::types::GatewayHandshakeMessageV { gateway_principal: gateway_principal@ },
            ),
    {
        let handshake = GatewayHandshakeMessage { gateway_principal };
        let frame = encode_handshake_message(&handshake);
        let session = ClientSession {
            client_id,
            client_key: None,
            canister_id: None,
            session_state: IcWsSessionState::Init,
        };
        (session, frame)
    }

    /// Handles one event and reports the new state when it changed; the
    /// action the caller must perform rides along. The first valid client
    /// frame moves Init to Setup, whose reported change carries the raw
    /// opening frame for the connection manager; the first canister message
    /// moves Setup to Open. Protocol violations and transport failures
    /// close the session and surface as the error result.
    pub fn update_state(&mut self, event: SessionEvent) -> (r: Result<
        (Option<IcWsSessionState>, Option<SessionAction>),
        IcWsError,
    >)
        requires
            session_wf(old(self)@),
        ensures
            session_wf(final(self)@),
            ({
                let (s2, oc) = match event {
                    SessionEvent::Client(u) => client_update_spec(old(self)@, u@),
                    SessionEvent::Canister(u) => canister_update_spec(
                        old(self)@,
                        opt_update_view(u),
                    ),
                };
                &&& final(self)@ == s2
                &&& match oc {
                    SessionOutcomeV::Accepted(a) => r matches Ok((chg, act))
                        && opt_action_view(act) == a && (match chg {
                        Some(st) => st@ == s2.session_state && s2.session_state != old(
                            self,
                        )@.session_state,
                        None => s2.session_state == old(self)@.session_state,
                    }),
                    SessionOutcomeV::ProtocolViolation => r matches Err(e) && e@ is IcWsProtocol,
                    SessionOutcomeV::TransportFailure => r matches Err(e) && e@ is WebSocket,
                }
            }),
    {
        let previous_session_state = self.session_state.clone();
        let action = match event {
            SessionEvent::Client(u) => self.handle_client_update(u)?,
            SessionEvent::Canister(u) => self.handle_canister_update(u)?,
        };
        if !self.session_state.eq(&previous_session_state) {
            Ok((Some(self.session_state.clone()), action))
        } else {
            Ok((None, action))
        }
    }

    /// Handles one event from the client's socket.
    pub fn handle_client_update(&mut self, client_update: ClientUpdate) -> (r: Result<
        Option<SessionAction>,
        IcWsError,
    >)
        requires
            session_wf(old(self)@),
        ensures
            session_wf(final(self)@),
            final(self)@ == client_update_spec(old(self)@, client_update@).0,
            outcome_matches(r, client_update_spec(old(self)@, client_update@).1),
    {
        match &self.session_state {
            IcWsSessionState::Init => {
                let ws_message = self.handle_ws_errors(client_update)?;
                match ws_message {
                    ClientUpdate::Close => {
                        self.session_state = IcWsSessionState::Closed;
                        Ok(None)
                    },
                    other => {
                        match self.check_setup_transition(other) {
                            Ok(setup_state) => {
                                self.session_state = setup_state;
                                Ok(None)
                            },
                            Err(e) => {
                                self.session_state = IcWsSessionState::Closed;
                                Err(e)
                            },
                        }
                    },
                }
            },
            IcWsSessionState::Setup(_) => {
                let _ws_message = self.handle_ws_errors(client_update)?;
                self.session_state = IcWsSessionState::Closed;
                Err(
                    IcWsError::IcWsProtocol(
                        String::from_str("client shall not send messages while in Setup state"),
                    ),
                )
            },
            IcWsSessionState::Open => {
                let ws_message = self.handle_ws_errors(client_update)?;
                match ws_message {
                    ClientUpdate::Close => {
                        self.session_state = IcWsSessionState::Closed;
                        Ok(None)
                    },
                    other => {
                        match self.relay_call_request_to_ic(&other) {
                            Ok((canister_id, envelope)) => Ok(
                                Some(SessionAction::SubmitToCanister(canister_id, envelope)),
                            ),
                            Err(e) => {
                                self.session_state = IcWsSessionState::Closed;
                                Err(e)
                            },
                        }
                    },
                }
            },
            IcWsSessionState::Closed => Err(
                IcWsError::IcWsProtocol(
                    String::from_str("client shall not send messages while in Closed state"),
                ),
            ),
        }
    }

    /// Handles one update from the poller. A fresh message is relayed; the
    /// poller's error notice, and the channel vanishing with the poller,
    /// record the failure and close the session.
    pub fn handle_canister_update(&mut self, canister_update: Option<IcWsConnectionUpdate>) -> (r:
        Result<Option<SessionAction>, IcWsError>)
        requires
            session_wf(old(self)@),
        ensures
            session_wf(final(self)@),
            final(self)@ == canister_update_spec(old(self)@, opt_update_view(canister_update)).0,
            outcome_matches(
                r,
                canister_update_spec(old(self)@, opt_update_view(canister_update)).1,
            ),
    {
        let canister_message = match canister_update {
            Some(IcWsConnectionUpdate::Message(m)) => m,
            Some(IcWsConnectionUpdate::Error(e)) => {
                self.session_state = IcWsSessionState::Closed;
                return Err(
                    IcWsError::WebSocket(
                        String::from_str("closing the session on a poller error: ").concat(
                            e.as_str(),
                        ),
                    ),
                );
            },
            None => {
                self.session_state = IcWsSessionState::Closed;
                return Err(
                    IcWsError::WebSocket(
                        String::from_str("the poller dropped the session's channel"),
                    ),
                );
            },
        };
        match &self.session_state {
            IcWsSessionState::Init => {
                self.session_state = IcWsSessionState::Closed;
                Err(
                    IcWsError::IcWsProtocol(
                        String::from_str("canister shall not send messages while in Init state"),
                    ),
                )
            },
            IcWsSessionState::Setup(_) => {
                let frame = self.relay_canister_message(&canister_message);
                self.session_state = IcWsSessionState::Open;
                Ok(Some(SessionAction::SendFrame(frame)))
            },
            IcWsSessionState::Open => {
                let frame = self.relay_canister_message(&canister_message);
                Ok(Some(SessionAction::SendFrame(frame)))
            },
            IcWsSessionState::Closed => Err(
                IcWsError::IcWsProtocol(
                    String::from_str("poller shall not send messages while in Closed state"),
                ),
            ),
        }
    }

    /// Turns a transport error or a vanished stream into the Closed state;
    /// everything else passes through.
    fn handle_ws_errors(&mut self, client_update: ClientUpdate) -> (r: Result<
        ClientUpdate,
        IcWsError,
    >)
        ensures
            match client_update@ {
                ClientUpdateV::WsError(_) => r matches Err(e) && e@ is WebSocket && final(self)@
                    == (ClientSessionV { session_state: IcWsSessionStateV::Closed, ..old(self)@ }),
                ClientUpdateV::StreamEnded => r matches Err(e) && e@ is WebSocket && final(self)@
                    == (ClientSessionV { session_state: IcWsSessionStateV::Closed, ..old(self)@ }),
                _ => r matches Ok(u) && u@ == client_update@ && final(self)@ == old(self)@,
            },
    {
        match client_update {
            ClientUpdate::WsError(e) => {
                self.session_state = IcWsSessionState::Closed;
                Err(
                    IcWsError::WebSocket(
                        String::from_str("error receiving message from client: ").concat(
                            e.as_str(),
                        ),
                    ),
                )
            },
            ClientUpdate::StreamEnded => {
                self.session_state = IcWsSessionState::Closed;
                Err(IcWsError::WebSocket(String::from_str("client connection already closed")))
            },
            other => Ok(other),
        }
    }

    /// Validates the opening frame: on success the session key and canister
    /// are recorded — exactly once; a second opening frame is a protocol
    /// violation and leaves them as they were — and the Setup state carrying
    /// the raw frame is returned.
    fn check_setup_transition(&mut self, ws_open_message: ClientUpdate) -> (r: Result<
        IcWsSessionState,
        IcWsError,
    >)
        requires
            !(old(self)@.session_state is Closed),
        ensures
            final(self)@.session_state == old(self)@.session_state,
            final(self)@.client_id == old(self)@.client_id,
            match ws_open_message@ {
                ClientUpdateV::Frame(b) => match inspect_open_spec(b) {
                    Some((ck, cid)) => {
                        if old(self)@.canister_id is Some || old(self)@.client_key is Some {
                            r matches Err(e) && e@ is IcWsProtocol && *final(self) == *old(self)
                        } else {
                            &&& final(self)@.client_key == Some(ck)
                            &&& final(self)@.canister_id == Some(cid)
                            &&& r matches Ok(st) && st@ == IcWsSessionStateV::Setup(b)
                        }
                    },
                    None => r matches Err(e) && e@ is IcWsProtocol && *final(self) == *old(self),
                },
                _ => r matches Err(e) && e@ is IcWsProtocol && *final(self) == *old(self),
            },
    {
        match self.inspect_ic_ws_open_message(&ws_open_message) {
            Ok((client_key, canister_id)) => {
                if self.canister_id.is_some() || self.client_key.is_some() {
                    return Err(
                        IcWsError::IcWsProtocol(
                            String::from_str(
                                "canister_id or client_key field would be set twice",
                            ),
                        ),
                    );
                }
                self.canister_id = Some(canister_id);
                self.client_key = Some(client_key);
                match ws_open_message {
                    ClientUpdate::Frame(bytes) => Ok(IcWsSessionState::Setup(bytes)),
                    _ => {
                        proof {
                            assert(false);
                        }
                        unreached()
                    },
                }
            },
            Err(_) => Err(
                IcWsError::IcWsProtocol(String::from_str("IC WS session setup failed")),
            ),
        }
    }

    /// Reads the session key and canister out of the opening frame: it must
    /// be a binary client request whose envelope content is a call carrying
    /// the session-opening arguments.
    fn inspect_ic_ws_open_message(&self, ws_message: &ClientUpdate) -> (r: Result<
        (ClientKey, CanisterId),
        IcWsError,
    >)
        ensures
            match ws_message@ {
                ClientUpdateV::Frame(b) => match inspect_open_spec(b) {
                    Some((ck, cid)) => r matches Ok(t) && t.0@ == ck && t.1@ == cid,
                    None => r is Err,
                },
                _ => r is Err,
            },
    {
        let client_request = get_client_request(ws_message)?;
        match client_request.envelope.content {
            EnvelopeContent::Call { canister_id, sender, arg, .. } => {
                let ws_open_arguments = match decode_ws_open_arguments(&arg) {
                    Some(oa) => oa,
                    None => {
                        return Err(
                            IcWsError::IcWsProtocol(
                                String::from_str(
                                    "arg field of envelope's content has the wrong type",
                                ),
                            ),
                        );
                    },
                };
                let client_key = ClientKey::new(sender, ws_open_arguments.client_nonce);
                Ok((client_key, canister_id))
            },
            _ => Err(
                IcWsError::IcWsProtocol(
                    String::from_str(
                        "first message from client should be of Call variant and contain canister_id and arg",
                    ),
                ),
            ),
        }
    }

    /// Extracts the call to relay: the frame must be a binary client
    /// request whose envelope content is a call; the envelope is returned
    /// encoded, with the canister it goes to. The backend's response is not
    /// relayed onward: it is not certified, so the client may not trust it.
    pub fn relay_call_request_to_ic(&self, message: &ClientUpdate) -> (r: Result<
        (CanisterId, Vec<u8>),
        IcWsError,
    >)
        requires
            self@.canister_id is Some,
        ensures
            match message@ {
                ClientUpdateV::Frame(b) => match dec_client_request(b) {
                    Some(req) => match req.envelope.content {
                        EnvelopeContentV::Call { .. } => r matches Ok(t) && t.0@
                            == self@.canister_id.unwrap() && t.1@ == enc_envelope(req.envelope),
                        _ => r matches Err(e) && e@ is IcWsProtocol,
                    },
                    None => r matches Err(e) && e@ is IcWsProtocol,
                },
                _ => r matches Err(e) && e@ is IcWsProtocol,
            },
    {
        let client_request = get_client_request(message)?;
        match &client_request.envelope.content {
            EnvelopeContent::Call { .. } => {
                let serialized_envelope = encode_envelope(&client_request.envelope);
                let canister_id = match &self.canister_id {
                    Some(c) => c.clone(),
                    None => {
                        proof {
                            assert(false);
                        }
                        unreached()
                    },
                };
                Ok((canister_id, serialized_envelope))
            },
            _ => Err(
                IcWsError::IcWsProtocol(
                    String::from_str(
                        "gateway can only relay envelopes with content of Call variant",
                    ),
                ),
            ),
        }
    }

    /// Encodes a canister message as the binary frame to ship to the
    /// client.
    pub fn relay_canister_message(&self, canister_message: &CanisterToClientMessage) -> (r: Vec<
        u8,
    >)
        ensures
            r@ == enc_canister_to_client_message(canister_message@),
    {
        encode_canister_to_client_message(canister_message)
    }
}

/// Decodes a binary frame as a client request. A non-binary frame, or one
/// the codec rejects, is malformed input and counts as a protocol
/// violation.
pub fn get_client_request(message: &ClientUpdate) -> (r: Result<ClientRequest, IcWsError>)
    ensures
        match message@ {
            ClientUpdateV::Frame(b) => match dec_client_request(b) {
                Some(req) => r matches Ok(cr) && cr@ == req,
                None => r matches Err(e) && e@ is IcWsProtocol,
            },
            _ => r matches Err(e) && e@ is IcWsProtocol,
        },
{
    match message {
        ClientUpdate::Frame(bytes) => match decode_client_request(bytes) {
            Some(client_request) => Ok(client_request),
            None => Err(
                IcWsError::IcWsProtocol(
                    String::from_str("ws message from client is not of type ClientRequest"),
                ),
            ),
        },
        _ => Err(
            IcWsError::IcWsProtocol(
                String::from_str("ws message from client is not binary encoded"),
            ),
        ),
    }
}

} // verus!
