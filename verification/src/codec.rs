//! Typed codecs of the gateway: symmetric encode and decode for the
//! handshake message, the session-opening arguments, websocket messages,
//! service messages, canister-to-client messages and client requests.
//!
//! Each type has a specification-level encoding `enc_*`, a specification
//! parser `dec_*`, executable functions proved equal to them, and a proof
//! that decoding an encoding yields the original value. Decoders accept the
//! canonical shape the encoders produce — self-describe tag first, map keys
//! in declaration order — and reject anything else. The one exception is
//! the session-opening argument, which travels inside a call's `arg` in the
//! backend's candid argument format rather than in the tagged one.

use vstd::prelude::*;

use crate::cbor::{
    enc_bool, enc_bstr, enc_head, enc_tstr, fits_u64, from_le, le_bytes, lemma_bool_round_trip,
    lemma_bstr_round_trip, lemma_from_le_bound, lemma_from_le_le_bytes, lemma_head_round_trip,
    lemma_le_bytes_len, lemma_lit_round_trip, lemma_pow256_vals, lemma_tstr_round_trip, p_bool,
    p_bstr, p_head, p_lit, p_tstr, push_bool, push_bstr, push_head, push_le, push_tstr, read_le,
    sp_bool, sp_bstr, sp_head, sp_lit, sp_tstr,
};
use crate::types::{
    CanisterId, CanisterToClientMessage, CanisterToClientMessageV, CanisterServiceMessage,
    CanisterServiceMessageV, CanisterOpenMessageContent, CanisterAckMessageContent,
    CanisterWsOpenArguments, CanisterWsOpenArgumentsV, ClientPrincipal, ClientRequest,
    ClientRequestV, Envelope, EnvelopeV, EnvelopeContent, EnvelopeContentV,
    GatewayHandshakeMessage, GatewayHandshakeMessageV, WebsocketMessage, WebsocketMessageV,
};

verus! {

/// Tag, five-entry map, first key of a websocket message.
pub open spec fn lit_ws_pre() -> Seq<u8> {
    seq![0xd9u8, 0xd9, 0xf7, 0xa5, 0x70, 0x63, 0x6c, 0x69, 0x65, 0x6e, 0x74, 0x5f, 0x70, 0x72, 0x69, 0x6e, 0x63, 0x69, 0x70, 0x61, 0x6c]
}

fn key_ws_pre() -> (v: Vec<u8>)
    ensures
        v@ == lit_ws_pre(),
{
    let v: Vec<u8> = vec![0xd9, 0xd9, 0xf7, 0xa5, 0x70, 0x63, 0x6c, 0x69, 0x65, 0x6e, 0x74, 0x5f, 0x70, 0x72, 0x69, 0x6e, 0x63, 0x69, 0x70, 0x61, 0x6c];
    proof {
        assert(v@ =~= lit_ws_pre());
    }
    v
}

/// Second key of a websocket message.
pub open spec fn lit_ws_seq() -> Seq<u8> {
    seq![0x6cu8, 0x73, 0x65, 0x71, 0x75, 0x65, 0x6e, 0x63, 0x65, 0x5f, 0x6e, 0x75, 0x6d]
}

fn key_ws_seq() -> (v: Vec<u8>)
    ensures
        v@ == lit_ws_seq(),
{
    let v: Vec<u8> = vec![0x6c, 0x73, 0x65, 0x71, 0x75, 0x65, 0x6e, 0x63, 0x65, 0x5f, 0x6e, 0x75, 0x6d];
    proof {
        assert(v@ =~= lit_ws_seq());
    }
    v
}

/// Third key of a websocket message.
pub open spec fn lit_ws_ts() -> Seq<u8> {
    seq![0x69u8, 0x74, 0x69, 0x6d, 0x65, 0x73, 0x74, 0x61, 0x6d, 0x70]
}

fn key_ws_ts() -> (v: Vec<u8>)
    ensures
        v@ == lit_ws_ts(),
{
    let v: Vec<u8> = vec![0x69, 0x74, 0x69, 0x6d, 0x65, 0x73, 0x74, 0x61, 0x6d, 0x70];
    proof {
        assert(v@ =~= lit_ws_ts());
    }
    v
}

/// Fourth key of a websocket message.
pub open spec fn lit_ws_svc() -> Seq<u8> {
    seq![0x72u8, 0x69, 0x73, 0x5f, 0x73, 0x65, 0x72, 0x76, 0x69, 0x63, 0x65, 0x5f, 0x6d, 0x65, 0x73, 0x73, 0x61, 0x67, 0x65]
}

fn key_ws_svc() -> (v: Vec<u8>)
    ensures
        v@ == lit_ws_svc(),
{
    let v: Vec<u8> = vec![0x72, 0x69, 0x73, 0x5f, 0x73, 0x65, 0x72, 0x76, 0x69, 0x63, 0x65, 0x5f, 0x6d, 0x65, 0x73, 0x73, 0x61, 0x67, 0x65];
    proof {
        assert(v@ =~= lit_ws_svc());
    }
    v
}

/// The key naming the payload of a websocket or canister-to-client message.
pub open spec fn lit_key_content() -> Seq<u8> {
    seq![0x67u8, 0x63, 0x6f, 0x6e, 0x74, 0x65, 0x6e, 0x74]
}

fn key_content() -> (v: Vec<u8>)
    ensures
        v@ == lit_key_content(),
{
    let v: Vec<u8> = vec![0x67, 0x63, 0x6f, 0x6e, 0x74, 0x65, 0x6e, 0x74];
    proof {
        assert(v@ =~= lit_key_content());
    }
    v
}

/// Tag and one-entry map of a service message.
pub open spec fn lit_srv_pre() -> Seq<u8> {
    seq![0xd9u8, 0xd9, 0xf7, 0xa1]
}

fn key_srv_pre() -> (v: Vec<u8>)
    ensures
        v@ == lit_srv_pre(),
{
    let v: Vec<u8> = vec![0xd9, 0xd9, 0xf7, 0xa1];
    proof {
        assert(v@ =~= lit_srv_pre());
    }
    v
}

/// Variant key and inner map of an open service message.
pub open spec fn lit_srv_open() -> Seq<u8> {
    seq![0x6bu8, 0x4f, 0x70, 0x65, 0x6e, 0x4d, 0x65, 0x73, 0x73, 0x61, 0x67, 0x65, 0xa1, 0x70, 0x63, 0x6c, 0x69, 0x65, 0x6e, 0x74, 0x5f, 0x70, 0x72, 0x69, 0x6e, 0x63, 0x69, 0x70, 0x61, 0x6c]
}

fn key_srv_open() -> (v: Vec<u8>)
    ensures
        v@ == lit_srv_open(),
{
    let v: Vec<u8> = vec![0x6b, 0x4f, 0x70, 0x65, 0x6e, 0x4d, 0x65, 0x73, 0x73, 0x61, 0x67, 0x65, 0xa1, 0x70, 0x63, 0x6c, 0x69, 0x65, 0x6e, 0x74, 0x5f, 0x70, 0x72, 0x69, 0x6e, 0x63, 0x69, 0x70, 0x61, 0x6c];
    proof {
        assert(v@ =~= lit_srv_open());
    }
    v
}

/// Variant key and inner map of an acknowledgement service message.
pub open spec fn lit_srv_ack() -> Seq<u8> {
    seq![0x6au8, 0x41, 0x63, 0x6b, 0x4d, 0x65, 0x73, 0x73, 0x61, 0x67, 0x65, 0xa1, 0x78, 0x1a, 0x6c, 0x61, 0x73, 0x74, 0x5f, 0x69, 0x6e, 0x63, 0x6f, 0x6d, 0x69, 0x6e, 0x67, 0x5f, 0x73, 0x65, 0x71, 0x75, 0x65, 0x6e, 0x63, 0x65, 0x5f, 0x6e, 0x75, 0x6d]
}

fn key_srv_ack() -> (v: Vec<u8>)
    ensures
        v@ == lit_srv_ack(),
{
    let v: Vec<u8> = vec![0x6a, 0x41, 0x63, 0x6b, 0x4d, 0x65, 0x73, 0x73, 0x61, 0x67, 0x65, 0xa1, 0x78, 0x1a, 0x6c, 0x61, 0x73, 0x74, 0x5f, 0x69, 0x6e, 0x63, 0x6f, 0x6d, 0x69, 0x6e, 0x67, 0x5f, 0x73, 0x65, 0x71, 0x75, 0x65, 0x6e, 0x63, 0x65, 0x5f, 0x6e, 0x75, 0x6d];
    proof {
        assert(v@ =~= lit_srv_ack());
    }
    v
}

/// Tag, one-entry map and key of a handshake message.
pub open spec fn lit_hs_pre() -> Seq<u8> {
    seq![0xd9u8, 0xd9, 0xf7, 0xa1, 0x71, 0x67, 0x61, 0x74, 0x65, 0x77, 0x61, 0x79, 0x5f, 0x70, 0x72, 0x69, 0x6e, 0x63, 0x69, 0x70, 0x61, 0x6c]
}

fn key_hs_pre() -> (v: Vec<u8>)
    ensures
        v@ == lit_hs_pre(),
{
    let v: Vec<u8> = vec![0xd9, 0xd9, 0xf7, 0xa1, 0x71, 0x67, 0x61, 0x74, 0x65, 0x77, 0x61, 0x79, 0x5f, 0x70, 0x72, 0x69, 0x6e, 0x63, 0x69, 0x70, 0x61, 0x6c];
    proof {
        assert(v@ =~= lit_hs_pre());
    }
    v
}

/// Tag, four-entry map, first key of a canister-to-client message.
pub open spec fn lit_c2c_pre() -> Seq<u8> {
    seq![0xd9u8, 0xd9, 0xf7, 0xa4, 0x63, 0x6b, 0x65, 0x79]
}

fn key_c2c_pre() -> (v: Vec<u8>)
    ensures
        v@ == lit_c2c_pre(),
{
    let v: Vec<u8> = vec![0xd9, 0xd9, 0xf7, 0xa4, 0x63, 0x6b, 0x65, 0x79];
    proof {
        assert(v@ =~= lit_c2c_pre());
    }
    v
}

/// Third key of a canister-to-client message.
pub open spec fn lit_c2c_cert() -> Seq<u8> {
    seq![0x64u8, 0x63, 0x65, 0x72, 0x74]
}

fn key_c2c_cert() -> (v: Vec<u8>)
    ensures
        v@ == lit_c2c_cert(),
{
    let v: Vec<u8> = vec![0x64, 0x63, 0x65, 0x72, 0x74];
    proof {
        assert(v@ =~= lit_c2c_cert());
    }
    v
}

/// Fourth key of a canister-to-client message.
pub open spec fn lit_c2c_tree() -> Seq<u8> {
    seq![0x64u8, 0x74, 0x72, 0x65, 0x65]
}

fn key_c2c_tree() -> (v: Vec<u8>)
    ensures
        v@ == lit_c2c_tree(),
{
    let v: Vec<u8> = vec![0x64, 0x74, 0x72, 0x65, 0x65];
    proof {
        assert(v@ =~= lit_c2c_tree());
    }
    v
}

/// Tag, outer map, envelope map and content key of a client request.
pub open spec fn lit_req_pre() -> Seq<u8> {
    seq![0xd9u8, 0xd9, 0xf7, 0xa1, 0x68, 0x65, 0x6e, 0x76, 0x65, 0x6c, 0x6f, 0x70, 0x65, 0xa3, 0x67, 0x63, 0x6f, 0x6e, 0x74, 0x65, 0x6e, 0x74]
}

fn key_req_pre() -> (v: Vec<u8>)
    ensures
        v@ == lit_req_pre(),
{
    let v: Vec<u8> = vec![0xd9, 0xd9, 0xf7, 0xa1, 0x68, 0x65, 0x6e, 0x76, 0x65, 0x6c, 0x6f, 0x70, 0x65, 0xa3, 0x67, 0x63, 0x6f, 0x6e, 0x74, 0x65, 0x6e, 0x74];
    proof {
        assert(v@ =~= lit_req_pre());
    }
    v
}

/// Seven-entry call content map, up to its nonce value.
pub open spec fn lit_req_call_nonce() -> Seq<u8> {
    seq![0xa7u8, 0x6c, 0x72, 0x65, 0x71, 0x75, 0x65, 0x73, 0x74, 0x5f, 0x74, 0x79, 0x70, 0x65, 0x64, 0x63, 0x61, 0x6c, 0x6c, 0x65, 0x6e, 0x6f, 0x6e, 0x63, 0x65]
}

fn key_req_call_nonce() -> (v: Vec<u8>)
    ensures
        v@ == lit_req_call_nonce(),
{
    let v: Vec<u8> = vec![0xa7, 0x6c, 0x72, 0x65, 0x71, 0x75, 0x65, 0x73, 0x74, 0x5f, 0x74, 0x79, 0x70, 0x65, 0x64, 0x63, 0x61, 0x6c, 0x6c, 0x65, 0x6e, 0x6f, 0x6e, 0x63, 0x65];
    proof {
        assert(v@ =~= lit_req_call_nonce());
    }
    v
}

/// Six-entry call content map without a nonce, up to its expiry value.
pub open spec fn lit_req_call_plain() -> Seq<u8> {
    seq![0xa6u8, 0x6c, 0x72, 0x65, 0x71, 0x75, 0x65, 0x73, 0x74, 0x5f, 0x74, 0x79, 0x70, 0x65, 0x64, 0x63, 0x61, 0x6c, 0x6c, 0x6e, 0x69, 0x6e, 0x67, 0x72, 0x65, 0x73, 0x73, 0x5f, 0x65, 0x78, 0x70, 0x69, 0x72, 0x79]
}

fn key_req_call_plain() -> (v: Vec<u8>)
    ensures
        v@ == lit_req_call_plain(),
{
    let v: Vec<u8> = vec![0xa6, 0x6c, 0x72, 0x65, 0x71, 0x75, 0x65, 0x73, 0x74, 0x5f, 0x74, 0x79, 0x70, 0x65, 0x64, 0x63, 0x61, 0x6c, 0x6c, 0x6e, 0x69, 0x6e, 0x67, 0x72, 0x65, 0x73, 0x73, 0x5f, 0x65, 0x78, 0x70, 0x69, 0x72, 0x79];
    proof {
        assert(v@ =~= lit_req_call_plain());
    }
    v
}

/// Expiry key of a call content carrying a nonce.
pub open spec fn lit_req_expiry() -> Seq<u8> {
    seq![0x6eu8, 0x69, 0x6e, 0x67, 0x72, 0x65, 0x73, 0x73, 0x5f, 0x65, 0x78, 0x70, 0x69, 0x72, 0x79]
}

fn key_req_expiry() -> (v: Vec<u8>)
    ensures
        v@ == lit_req_expiry(),
{
    let v: Vec<u8> = vec![0x6e, 0x69, 0x6e, 0x67, 0x72, 0x65, 0x73, 0x73, 0x5f, 0x65, 0x78, 0x70, 0x69, 0x72, 0x79];
    proof {
        assert(v@ =~= lit_req_expiry());
    }
    v
}

/// Canister key of a call content.
pub open spec fn lit_req_canister() -> Seq<u8> {
    seq![0x6bu8, 0x63, 0x61, 0x6e, 0x69, 0x73, 0x74, 0x65, 0x72, 0x5f, 0x69, 0x64]
}

fn key_req_canister() -> (v: Vec<u8>)
    ensures
        v@ == lit_req_canister(),
{
    let v: Vec<u8> = vec![0x6b, 0x63, 0x61, 0x6e, 0x69, 0x73, 0x74, 0x65, 0x72, 0x5f, 0x69, 0x64];
    proof {
        assert(v@ =~= lit_req_canister());
    }
    v
}

/// Method-name key of a call content.
pub open spec fn lit_req_method() -> Seq<u8> {
    seq![0x6bu8, 0x6d, 0x65, 0x74, 0x68, 0x6f, 0x64, 0x5f, 0x6e, 0x61, 0x6d, 0x65]
}

fn key_req_method() -> (v: Vec<u8>)
    ensures
        v@ == lit_req_method(),
{
    let v: Vec<u8> = vec![0x6b, 0x6d, 0x65, 0x74, 0x68, 0x6f, 0x64, 0x5f, 0x6e, 0x61, 0x6d, 0x65];
    proof {
        assert(v@ =~= lit_req_method());
    }
    v
}

/// Sender key of an envelope content.
pub open spec fn lit_req_sender() -> Seq<u8> {
    seq![0x66u8, 0x73, 0x65, 0x6e, 0x64, 0x65, 0x72]
}

fn key_req_sender() -> (v: Vec<u8>)
    ensures
        v@ == lit_req_sender(),
{
    let v: Vec<u8> = vec![0x66, 0x73, 0x65, 0x6e, 0x64, 0x65, 0x72];
    proof {
        assert(v@ =~= lit_req_sender());
    }
    v
}

/// Argument key of a call content.
pub open spec fn lit_req_arg() -> Seq<u8> {
    seq![0x63u8, 0x61, 0x72, 0x67]
}

fn key_req_arg() -> (v: Vec<u8>)
    ensures
        v@ == lit_req_arg(),
{
    let v: Vec<u8> = vec![0x63, 0x61, 0x72, 0x67];
    proof {
        assert(v@ =~= lit_req_arg());
    }
    v
}

/// Content map of a read-state envelope, up to its first value.
pub open spec fn lit_req_read_state() -> Seq<u8> {
    seq![0xa2u8, 0x6c, 0x72, 0x65, 0x71, 0x75, 0x65, 0x73, 0x74, 0x5f, 0x74, 0x79, 0x70, 0x65, 0x6a, 0x72, 0x65, 0x61, 0x64, 0x5f, 0x73, 0x74, 0x61, 0x74, 0x65, 0x66, 0x73, 0x65, 0x6e, 0x64, 0x65, 0x72]
}

fn key_req_read_state() -> (v: Vec<u8>)
    ensures
        v@ == lit_req_read_state(),
{
    let v: Vec<u8> = vec![0xa2, 0x6c, 0x72, 0x65, 0x71, 0x75, 0x65, 0x73, 0x74, 0x5f, 0x74, 0x79, 0x70, 0x65, 0x6a, 0x72, 0x65, 0x61, 0x64, 0x5f, 0x73, 0x74, 0x61, 0x74, 0x65, 0x66, 0x73, 0x65, 0x6e, 0x64, 0x65, 0x72];
    proof {
        assert(v@ =~= lit_req_read_state());
    }
    v
}

/// Signature key of an envelope.
pub open spec fn lit_req_sig() -> Seq<u8> {
    seq![0x6au8, 0x73, 0x65, 0x6e, 0x64, 0x65, 0x72, 0x5f, 0x73, 0x69, 0x67]
}

fn key_req_sig() -> (v: Vec<u8>)
    ensures
        v@ == lit_req_sig(),
{
    let v: Vec<u8> = vec![0x6a, 0x73, 0x65, 0x6e, 0x64, 0x65, 0x72, 0x5f, 0x73, 0x69, 0x67];
    proof {
        assert(v@ =~= lit_req_sig());
    }
    v
}

/// Public-key key of an envelope.
pub open spec fn lit_req_pubkey() -> Seq<u8> {
    seq![0x6du8, 0x73, 0x65, 0x6e, 0x64, 0x65, 0x72, 0x5f, 0x70, 0x75, 0x62, 0x6b, 0x65, 0x79]
}

fn key_req_pubkey() -> (v: Vec<u8>)
    ensures
        v@ == lit_req_pubkey(),
{
    let v: Vec<u8> = vec![0x6d, 0x73, 0x65, 0x6e, 0x64, 0x65, 0x72, 0x5f, 0x70, 0x75, 0x62, 0x6b, 0x65, 0x79];
    proof {
        assert(v@ =~= lit_req_pubkey());
    }
    v
}

/// Magic, type table and argument list of the candid-encoded
/// session-opening record — one record of one fixed-width field — up to
/// its value.
pub open spec fn lit_oa_candid_pre() -> Seq<u8> {
    seq![0x44u8, 0x49, 0x44, 0x4c, 0x01, 0x6c, 0x01, 0xbb, 0xd1, 0xea, 0xcd, 0x0e, 0x78, 0x01, 0x00]
}

fn key_oa_candid_pre() -> (v: Vec<u8>)
    ensures
        v@ == lit_oa_candid_pre(),
{
    let v: Vec<u8> = vec![0x44, 0x49, 0x44, 0x4c, 0x01, 0x6c, 0x01, 0xbb, 0xd1, 0xea, 0xcd, 0x0e, 0x78, 0x01, 0x00];
    proof {
        assert(v@ =~= lit_oa_candid_pre());
    }
    v
}

// --- Handshake message ---

pub open spec fn wf_handshake(v: GatewayHandshakeMessageV) -> bool {
    fits_u64(v.gateway_principal)
}

pub open spec fn enc_handshake(v: GatewayHandshakeMessageV) -> Seq<u8> {
    lit_hs_pre() + enc_bstr(v.gateway_principal)
}

pub open spec fn dec_handshake(s: Seq<u8>) -> Option<GatewayHandshakeMessageV> {
    match sp_lit(s, 0, lit_hs_pre()) {
        None => None,
        Some(p0) => match sp_bstr(s, p0) {
            None => None,
            Some((gp, p1)) => if p1 == s.len() {
                Some(GatewayHandshakeMessageV { gateway_principal: gp })
            } else {
                None
            },
        },
    }
}

pub fn encode_handshake_message(m: &GatewayHandshakeMessage) -> (out: Vec<u8>)
    ensures
        out@ == enc_handshake(m@),
{
    let mut out = key_hs_pre();
    push_bstr(&mut out, m.gateway_principal.as_bytes());
    out
}

pub fn decode_handshake_message(data: &Vec<u8>) -> (r: Option<GatewayHandshakeMessage>)
    ensures
        match r {
            Some(m) => dec_handshake(data@) == Some(m@),
            None => dec_handshake(data@) is None,
        },
{
    let pre = key_hs_pre();
    let p0 = match p_lit(data, 0, &pre) {
        None => {
            return None;
        },
        Some(p) => p,
    };
    let (gp, p1) = match p_bstr(data, p0) {
        None => {
            return None;
        },
        Some(t) => t,
    };
    if p1 != data.len() {
        return None;
    }
    Some(GatewayHandshakeMessage { gateway_principal: ClientPrincipal::from_bytes(gp) })
}

/// Decoding an encoded handshake message yields the original value.
pub proof fn lemma_handshake_round_trip(v: GatewayHandshakeMessageV)
    requires
        wf_handshake(v),
    ensures
        dec_handshake(enc_handshake(v)) == Some(v),
{
    let s = enc_handshake(v);
    let l = lit_hs_pre();
    let c = enc_bstr(v.gateway_principal);
    let o0 = l.len() as int;
    assert(s.subrange(0, o0) =~= l);
    lemma_lit_round_trip(s, 0, l);
    assert(s.subrange(o0, o0 + c.len()) =~= c);
    lemma_bstr_round_trip(s, o0, v.gateway_principal);
}

// --- Session-opening arguments ---

/// The session-opening argument travels as the backend's candid argument
/// encoding of a record holding the one fixed-width nonce: the candid
/// magic, type table and argument list, then the value in little-endian.
pub open spec fn enc_ws_open_arguments(v: CanisterWsOpenArgumentsV) -> Seq<u8> {
    lit_oa_candid_pre() + le_bytes(v.client_nonce as int, 8)
}

pub open spec fn dec_ws_open_arguments(s: Seq<u8>) -> Option<CanisterWsOpenArgumentsV> {
    match sp_lit(s, 0, lit_oa_candid_pre()) {
        None => None,
        Some(p0) => if s.len() == p0 + 8 {
            Some(
                CanisterWsOpenArgumentsV {
                    client_nonce: from_le(s.subrange(p0, p0 + 8)) as u64,
                },
            )
        } else {
            None
        },
    }
}

pub fn encode_ws_open_arguments(m: &CanisterWsOpenArguments) -> (out: Vec<u8>)
    ensures
        out@ == enc_ws_open_arguments(m@),
{
    let mut out = key_oa_candid_pre();
    push_le(&mut out, m.client_nonce, 8);
    out
}

pub fn decode_ws_open_arguments(data: &Vec<u8>) -> (r: Option<CanisterWsOpenArguments>)
    ensures
        match r {
            Some(m) => dec_ws_open_arguments(data@) == Some(m@),
            None => dec_ws_open_arguments(data@) is None,
        },
{
    let pre = key_oa_candid_pre();
    let p0 = match p_lit(data, 0, &pre) {
        None => {
            return None;
        },
        Some(p) => p,
    };
    let (n, p1) = match read_le(data, p0, 8) {
        None => {
            return None;
        },
        Some(t) => t,
    };
    if p1 != data.len() {
        return None;
    }
    proof {
        lemma_from_le_bound(data@.subrange(p0 as int, p0 + 8));
        lemma_pow256_vals();
    }
    Some(CanisterWsOpenArguments { client_nonce: n })
}

/// Decoding encoded session-opening arguments yields the original value.
pub proof fn lemma_ws_open_arguments_round_trip(v: CanisterWsOpenArgumentsV)
    ensures
        dec_ws_open_arguments(enc_ws_open_arguments(v)) == Some(v),
{
    let s = enc_ws_open_arguments(v);
    let l = lit_oa_candid_pre();
    let c = le_bytes(v.client_nonce as int, 8);
    lemma_le_bytes_len(v.client_nonce as int, 8);
    let o0 = l.len() as int;
    assert(s.subrange(0, o0) =~= l);
    lemma_lit_round_trip(s, 0, l);
    assert(s.subrange(o0, o0 + 8) =~= c);
    lemma_pow256_vals();
    lemma_from_le_le_bytes(v.client_nonce as int, 8);
}

// --- Websocket message ---

pub open spec fn wf_websocket_message(v: WebsocketMessageV) -> bool {
    fits_u64(v.client_principal) && fits_u64(v.content)
}

pub open spec fn enc_websocket_message(v: WebsocketMessageV) -> Seq<u8> {
    lit_ws_pre() + enc_bstr(v.client_principal) + lit_ws_seq() + enc_head(0, v.sequence_num)
        + lit_ws_ts() + enc_head(0, v.timestamp) + lit_ws_svc() + enc_bool(v.is_service_message)
        + lit_key_content() + enc_bstr(v.content)
}

pub open spec fn dec_websocket_message(s: Seq<u8>) -> Option<WebsocketMessageV> {
    match sp_lit(s, 0, lit_ws_pre()) {
        None => None,
        Some(p0) => match sp_bstr(s, p0) {
            None => None,
            Some((cp, p1)) => match sp_lit(s, p1, lit_ws_seq()) {
                None => None,
                Some(p2) => match sp_head(s, p2, 0) {
                    None => None,
                    Some((sq, p3)) => match sp_lit(s, p3, lit_ws_ts()) {
                        None => None,
                        Some(p4) => match sp_head(s, p4, 0) {
                            None => None,
                            Some((ts, p5)) => match sp_lit(s, p5, lit_ws_svc()) {
                                None => None,
                                Some(p6) => match sp_bool(s, p6) {
                                    None => None,
                                    Some((svc, p7)) => match sp_lit(s, p7, lit_key_content()) {
                                        None => None,
                                        Some(p8) => match sp_bstr(s, p8) {
                                            None => None,
                                            Some((ct, p9)) => if p9 == s.len() {
                                                Some(
                                                    WebsocketMessageV {
                                                        client_principal: cp,
                                                        sequence_num: sq,
                                                        timestamp: ts,
                                                        is_service_message: svc,
                                                        content: ct,
                                                    },
                                                )
                                            } else {
                                                None
                                            },
                                        },
                                    },
                                },
                            },
                        },
                    },
                },
            },
        },
    }
}

pub fn encode_websocket_message(m: &WebsocketMessage) -> (out: Vec<u8>)
    ensures
        out@ == enc_websocket_message(m@),
{
    let mut out = key_ws_pre();
    push_bstr(&mut out, m.client_principal.as_bytes());
    let mut k = key_ws_seq();
    out.append(&mut k);
    push_head(&mut out, 0, m.sequence_num);
    let mut k = key_ws_ts();
    out.append(&mut k);
    push_head(&mut out, 0, m.timestamp);
    let mut k = key_ws_svc();
    out.append(&mut k);
    push_bool(&mut out, m.is_service_message);
    let mut k = key_content();
    out.append(&mut k);
    push_bstr(&mut out, &m.content);
    proof {
        assert(out@ =~= enc_websocket_message(m@));
    }
    out
}

pub fn decode_websocket_message(data: &Vec<u8>) -> (r: Option<WebsocketMessage>)
    ensures
        match r {
            Some(m) => dec_websocket_message(data@) == Some(m@),
            None => dec_websocket_message(data@) is None,
        },
{
    let pre = key_ws_pre();
    let p0 = match p_lit(data, 0, &pre) {
        None => {
            return None;
        },
        Some(p) => p,
    };
    let (cp, p1) = match p_bstr(data, p0) {
        None => {
            return None;
        },
        Some(t) => t,
    };
    let k = key_ws_seq();
    let p2 = match p_lit(data, p1, &k) {
        None => {
            return None;
        },
        Some(p) => p,
    };
    let (sq, p3) = match p_head(data, p2, 0) {
        None => {
            return None;
        },
        Some(t) => t,
    };
    let k = key_ws_ts();
    let p4 = match p_lit(data, p3, &k) {
        None => {
            return None;
        },
        Some(p) => p,
    };
    let (ts, p5) = match p_head(data, p4, 0) {
        None => {
            return None;
        },
        Some(t) => t,
    };
    let k = key_ws_svc();
    let p6 = match p_lit(data, p5, &k) {
        None => {
            return None;
        },
        Some(p) => p,
    };
    let (svc, p7) = match p_bool(data, p6) {
        None => {
            return None;
        },
        Some(t) => t,
    };
    let k = key_content();
    let p8 = match p_lit(data, p7, &k) {
        None => {
            return None;
        },
        Some(p) => p,
    };
    let (ct, p9) = match p_bstr(data, p8) {
        None => {
            return None;
        },
        Some(t) => t,
    };
    if p9 != data.len() {
        return None;
    }
    Some(
        WebsocketMessage {
            client_principal: ClientPrincipal::from_bytes(cp),
            sequence_num: sq,
            timestamp: ts,
            is_service_message: svc,
            content: ct,
        },
    )
}

/// Decoding an encoded websocket message yields the original value.
#[verifier::rlimit(100)]
pub proof fn lemma_websocket_message_round_trip(v: WebsocketMessageV)
    requires
        wf_websocket_message(v),
    ensures
        dec_websocket_message(enc_websocket_message(v)) == Some(v),
{
    let s = enc_websocket_message(v);
    let l0 = lit_ws_pre();
    let c0 = enc_bstr(v.client_principal);
    let l1 = lit_ws_seq();
    let c1 = enc_head(0, v.sequence_num);
    let l2 = lit_ws_ts();
    let c2 = enc_head(0, v.timestamp);
    let l3 = lit_ws_svc();
    let c3 = enc_bool(v.is_service_message);
    let l4 = lit_key_content();
    let c4 = enc_bstr(v.content);
    let o0 = l0.len() as int;
    let o1 = o0 + c0.len();
    let o2 = o1 + l1.len();
    let o3 = o2 + c1.len();
    let o4 = o3 + l2.len();
    let o5 = o4 + c2.len();
    let o6 = o5 + l3.len();
    let o7 = o6 + c3.len();
    let o8 = o7 + l4.len();
    let o9 = o8 + c4.len();
    assert(s.len() == o9);
    assert(s.subrange(0, o0) =~= l0);
    lemma_lit_round_trip(s, 0, l0);
    assert(s.subrange(o0, o1) =~= c0);
    lemma_bstr_round_trip(s, o0, v.client_principal);
    assert(s.subrange(o1, o2) =~= l1);
    lemma_lit_round_trip(s, o1, l1);
    assert(s.subrange(o2, o3) =~= c1);
    lemma_head_round_trip(s, o2, 0, v.sequence_num);
    assert(s.subrange(o3, o4) =~= l2);
    lemma_lit_round_trip(s, o3, l2);
    assert(s.subrange(o4, o5) =~= c2);
    lemma_head_round_trip(s, o4, 0, v.timestamp);
    assert(s.subrange(o5, o6) =~= l3);
    lemma_lit_round_trip(s, o5, l3);
    assert(s.subrange(o6, o7) =~= c3);
    lemma_bool_round_trip(s, o6, v.is_service_message);
    assert(s.subrange(o7, o8) =~= l4);
    lemma_lit_round_trip(s, o7, l4);
    assert(s.subrange(o8, o9) =~= c4);
    lemma_bstr_round_trip(s, o8, v.content);
}

// --- Canister service message ---

pub open spec fn wf_service_message(v: CanisterServiceMessageV) -> bool {
    match v {
        CanisterServiceMessageV::OpenMessage(cp) => fits_u64(cp),
        CanisterServiceMessageV::AckMessage(_) => true,
    }
}

pub open spec fn enc_service_message(v: CanisterServiceMessageV) -> Seq<u8> {
    match v {
        CanisterServiceMessageV::OpenMessage(cp) => lit_srv_pre() + lit_srv_open() + enc_bstr(cp),
        CanisterServiceMessageV::AckMessage(n) => lit_srv_pre() + lit_srv_ack() + enc_head(0, n),
    }
}

pub open spec fn dec_service_message(s: Seq<u8>) -> Option<CanisterServiceMessageV> {
    match sp_lit(s, 0, lit_srv_pre()) {
        None => None,
        Some(p0) => match sp_lit(s, p0, lit_srv_open()) {
            Some(p1) => match sp_bstr(s, p1) {
                None => None,
                Some((cp, p2)) => if p2 == s.len() {
                    Some(CanisterServiceMessageV::OpenMessage(cp))
                } else {
                    None
                },
            },
            None => match sp_lit(s, p0, lit_srv_ack()) {
                None => None,
                Some(p1) => match sp_head(s, p1, 0) {
                    None => None,
                    Some((n, p2)) => if p2 == s.len() {
                        Some(CanisterServiceMessageV::AckMessage(n))
                    } else {
                        None
                    },
                },
            },
        },
    }
}

pub fn encode_service_message(m: &CanisterServiceMessage) -> (out: Vec<u8>)
    ensures
        out@ == enc_service_message(m@),
{
    let mut out = key_srv_pre();
    match m {
        CanisterServiceMessage::OpenMessage(c) => {
            let mut k = key_srv_open();
            out.append(&mut k);
            push_bstr(&mut out, c.client_principal.as_bytes());
        },
        CanisterServiceMessage::AckMessage(c) => {
            let mut k = key_srv_ack();
            out.append(&mut k);
            push_head(&mut out, 0, c.last_incoming_sequence_num);
        },
    }
    proof {
        assert(out@ =~= enc_service_message(m@));
    }
    out
}

pub fn decode_service_message(data: &Vec<u8>) -> (r: Option<CanisterServiceMessage>)
    ensures
        match r {
            Some(m) => dec_service_message(data@) == Some(m@),
            None => dec_service_message(data@) is None,
        },
{
    let pre = key_srv_pre();
    let p0 = match p_lit(data, 0, &pre) {
        None => {
            return None;
        },
        Some(p) => p,
    };
    let k_open = key_srv_open();
    match p_lit(data, p0, &k_open) {
        Some(p1) => {
            let (cp, p2) = match p_bstr(data, p1) {
                None => {
                    return None;
                },
                Some(t) => t,
            };
            if p2 != data.len() {
                return None;
            }
            Some(
                CanisterServiceMessage::OpenMessage(
                    CanisterOpenMessageContent { client_principal: ClientPrincipal::from_bytes(cp) },
                ),
            )
        },
        None => {
            let k_ack = key_srv_ack();
            let p1 = match p_lit(data, p0, &k_ack) {
                None => {
                    return None;
                },
                Some(p) => p,
            };
            let (n, p2) = match p_head(data, p1, 0) {
                None => {
                    return None;
                },
                Some(t) => t,
            };
            if p2 != data.len() {
                return None;
            }
            Some(
                CanisterServiceMessage::AckMessage(
                    CanisterAckMessageContent { last_incoming_sequence_num: n },
                ),
            )
        },
    }
}

/// Decoding an encoded service message yields the original value.
pub proof fn lemma_service_message_round_trip(v: CanisterServiceMessageV)
    requires
        wf_service_message(v),
    ensures
        dec_service_message(enc_service_message(v)) == Some(v),
{
    let s = enc_service_message(v);
    let l = lit_srv_pre();
    let o0 = l.len() as int;
    assert(s.subrange(0, o0) =~= l);
    lemma_lit_round_trip(s, 0, l);
    match v {
        CanisterServiceMessageV::OpenMessage(cp) => {
            let lo = lit_srv_open();
            let c = enc_bstr(cp);
            let o1 = o0 + lo.len();
            assert(s.subrange(o0, o1) =~= lo);
            lemma_lit_round_trip(s, o0, lo);
            assert(s.subrange(o1, o1 + c.len()) =~= c);
            lemma_bstr_round_trip(s, o1, cp);
        },
        CanisterServiceMessageV::AckMessage(n) => {
            let la = lit_srv_ack();
            let c = enc_head(0, n);
            let o1 = o0 + la.len();
            assert(sp_lit(s, o0, lit_srv_open()) is None) by {
                if o0 + lit_srv_open().len() <= s.len() {
                    assert(s.subrange(o0, o0 + lit_srv_open().len())[0] == s[o0]);
                    assert(s[o0] == la[0]);
                }
            }
            assert(s.subrange(o0, o1) =~= la);
            lemma_lit_round_trip(s, o0, la);
            assert(s.subrange(o1, o1 + c.len()) =~= c);
            lemma_head_round_trip(s, o1, 0, n);
        },
    }
}

// --- Canister-to-client message ---

pub open spec fn wf_canister_to_client_message(v: CanisterToClientMessageV) -> bool {
    fits_u64(v.key) && fits_u64(v.content) && fits_u64(v.cert) && fits_u64(v.tree)
}

pub open spec fn enc_canister_to_client_message(v: CanisterToClientMessageV) -> Seq<u8> {
    lit_c2c_pre() + enc_tstr(v.key) + lit_key_content() + enc_bstr(v.content) + lit_c2c_cert()
        + enc_bstr(v.cert) + lit_c2c_tree() + enc_bstr(v.tree)
}

pub open spec fn dec_canister_to_client_message(s: Seq<u8>) -> Option<CanisterToClientMessageV> {
    match sp_lit(s, 0, lit_c2c_pre()) {
        None => None,
        Some(p0) => match sp_tstr(s, p0) {
            None => None,
            Some((key, p1)) => match sp_lit(s, p1, lit_key_content()) {
                None => None,
                Some(p2) => match sp_bstr(s, p2) {
                    None => None,
                    Some((ct, p3)) => match sp_lit(s, p3, lit_c2c_cert()) {
                        None => None,
                        Some(p4) => match sp_bstr(s, p4) {
                            None => None,
                            Some((cert, p5)) => match sp_lit(s, p5, lit_c2c_tree()) {
                                None => None,
                                Some(p6) => match sp_bstr(s, p6) {
                                    None => None,
                                    Some((tree, p7)) => if p7 == s.len() {
                                        Some(
                                            CanisterToClientMessageV {
                                                key,
                                                content: ct,
                                                cert,
                                                tree,
                                            },
                                        )
                                    } else {
                                        None
                                    },
                                },
                            },
                        },
                    },
                },
            },
        },
    }
}

pub fn encode_canister_to_client_message(m: &CanisterToClientMessage) -> (out: Vec<u8>)
    ensures
        out@ == enc_canister_to_client_message(m@),
{
    let mut out = key_c2c_pre();
    push_tstr(&mut out, &m.key);
    let mut k = key_content();
    out.append(&mut k);
    push_bstr(&mut out, &m.content);
    let mut k = key_c2c_cert();
    out.append(&mut k);
    push_bstr(&mut out, &m.cert);
    let mut k = key_c2c_tree();
    out.append(&mut k);
    push_bstr(&mut out, &m.tree);
    proof {
        assert(out@ =~= enc_canister_to_client_message(m@));
    }
    out
}

pub fn decode_canister_to_client_message(data: &Vec<u8>) -> (r: Option<CanisterToClientMessage>)
    ensures
        match r {
            Some(m) => dec_canister_to_client_message(data@) == Some(m@),
            None => dec_canister_to_client_message(data@) is None,
        },
{
    let pre = key_c2c_pre();
    let p0 = match p_lit(data, 0, &pre) {
        None => {
            return None;
        },
        Some(p) => p,
    };
    let (key, p1) = match p_tstr(data, p0) {
        None => {
            return None;
        },
        Some(t) => t,
    };
    let k = key_content();
    let p2 = match p_lit(data, p1, &k) {
        None => {
            return None;
        },
        Some(p) => p,
    };
    let (ct, p3) = match p_bstr(data, p2) {
        None => {
            return None;
        },
        Some(t) => t,
    };
    let k = key_c2c_cert();
    let p4 = match p_lit(data, p3, &k) {
        None => {
            return None;
        },
        Some(p) => p,
    };
    let (cert, p5) = match p_bstr(data, p4) {
        None => {
            return None;
        },
        Some(t) => t,
    };
    let k = key_c2c_tree();
    let p6 = match p_lit(data, p5, &k) {
        None => {
            return None;
        },
        Some(p) => p,
    };
    let (tree, p7) = match p_bstr(data, p6) {
        None => {
            return None;
        },
        Some(t) => t,
    };
    if p7 != data.len() {
        return None;
    }
    Some(CanisterToClientMessage { key, content: ct, cert, tree })
}

/// Decoding an encoded canister-to-client message yields the original value.
#[verifier::rlimit(100)]
pub proof fn lemma_canister_to_client_message_round_trip(v: CanisterToClientMessageV)
    requires
        wf_canister_to_client_message(v),
    ensures
        dec_canister_to_client_message(enc_canister_to_client_message(v)) == Some(v),
{
    let s = enc_canister_to_client_message(v);
    let l0 = lit_c2c_pre();
    let c0 = enc_tstr(v.key);
    let l1 = lit_key_content();
    let c1 = enc_bstr(v.content);
    let l2 = lit_c2c_cert();
    let c2 = enc_bstr(v.cert);
    let l3 = lit_c2c_tree();
    let c3 = enc_bstr(v.tree);
    let o0 = l0.len() as int;
    let o1 = o0 + c0.len();
    let o2 = o1 + l1.len();
    let o3 = o2 + c1.len();
    let o4 = o3 + l2.len();
    let o5 = o4 + c2.len();
    let o6 = o5 + l3.len();
    let o7 = o6 + c3.len();
    assert(s.len() == o7);
    assert(s.subrange(0, o0) =~= l0);
    lemma_lit_round_trip(s, 0, l0);
    assert(s.subrange(o0, o1) =~= c0);
    lemma_tstr_round_trip(s, o0, v.key);
    assert(s.subrange(o1, o2) =~= l1);
    lemma_lit_round_trip(s, o1, l1);
    assert(s.subrange(o2, o3) =~= c1);
    lemma_bstr_round_trip(s, o2, v.content);
    assert(s.subrange(o3, o4) =~= l2);
    lemma_lit_round_trip(s, o3, l2);
    assert(s.subrange(o4, o5) =~= c2);
    lemma_bstr_round_trip(s, o4, v.cert);
    assert(s.subrange(o5, o6) =~= l3);
    lemma_lit_round_trip(s, o5, l3);
    assert(s.subrange(o6, o7) =~= c3);
    lemma_bstr_round_trip(s, o6, v.tree);
}

// --- Client request ---

pub open spec fn wf_envelope_content(v: EnvelopeContentV) -> bool {
    match v {
        EnvelopeContentV::Call { nonce, ingress_expiry, sender, canister_id, method_name, arg } => (
        match nonce {
            Some(nb) => fits_u64(nb),
            None => true,
        }) && fits_u64(sender) && fits_u64(canister_id) && fits_u64(method_name) && fits_u64(arg),
        EnvelopeContentV::ReadState { sender } => fits_u64(sender),
    }
}

pub open spec fn wf_client_request(v: ClientRequestV) -> bool {
    wf_envelope_content(v.envelope.content) && fits_u64(v.envelope.sender_sig) && fits_u64(
        v.envelope.sender_pubkey,
    )
}

/// The signed fields a call carries after its expiry: sender, canister,
/// method name and argument, in the order the signature covers them.
pub open spec fn enc_call_tail(
    sender: Seq<u8>,
    canister_id: Seq<u8>,
    method_name: Seq<u8>,
    arg: Seq<u8>,
) -> Seq<u8> {
    lit_req_sender() + enc_bstr(sender) + lit_req_canister() + enc_bstr(canister_id)
        + lit_req_method() + enc_tstr(method_name) + lit_req_arg() + enc_bstr(arg)
}

pub open spec fn sp_call_tail(s: Seq<u8>, pos: int) -> Option<
    ((Seq<u8>, Seq<u8>, Seq<u8>, Seq<u8>), int),
> {
    match sp_lit(s, pos, lit_req_sender()) {
        None => None,
        Some(p1) => match sp_bstr(s, p1) {
            None => None,
            Some((sender, p2)) => match sp_lit(s, p2, lit_req_canister()) {
                None => None,
                Some(p3) => match sp_bstr(s, p3) {
                    None => None,
                    Some((cid, p4)) => match sp_lit(s, p4, lit_req_method()) {
                        None => None,
                        Some(p5) => match sp_tstr(s, p5) {
                            None => None,
                            Some((method, p6)) => match sp_lit(s, p6, lit_req_arg()) {
                                None => None,
                                Some(p7) => match sp_bstr(s, p7) {
                                    None => None,
                                    Some((arg, p8)) => Some(((sender, cid, method, arg), p8)),
                                },
                            },
                        },
                    },
                },
            },
        },
    }
}

pub open spec fn enc_envelope_content(v: EnvelopeContentV) -> Seq<u8> {
    match v {
        EnvelopeContentV::Call {
            nonce,
            ingress_expiry,
            sender,
            canister_id,
            method_name,
            arg,
        } => match nonce {
            Some(nb) => lit_req_call_nonce() + enc_bstr(nb) + lit_req_expiry() + enc_head(
                0,
                ingress_expiry,
            ) + enc_call_tail(sender, canister_id, method_name, arg),
            None => lit_req_call_plain() + enc_head(0, ingress_expiry) + enc_call_tail(
                sender,
                canister_id,
                method_name,
                arg,
            ),
        },
        EnvelopeContentV::ReadState { sender } => lit_req_read_state() + enc_bstr(sender),
    }
}

pub open spec fn enc_client_request(v: ClientRequestV) -> Seq<u8> {
    lit_req_pre() + enc_envelope_content(v.envelope.content) + lit_req_pubkey() + enc_bstr(
        v.envelope.sender_pubkey,
    ) + lit_req_sig() + enc_bstr(v.envelope.sender_sig)
}

pub open spec fn sp_envelope_content(s: Seq<u8>, pos: int) -> Option<(EnvelopeContentV, int)> {
    match sp_lit(s, pos, lit_req_call_nonce()) {
        Some(p0) => match sp_bstr(s, p0) {
            None => None,
            Some((nb, p1)) => match sp_lit(s, p1, lit_req_expiry()) {
                None => None,
                Some(p2) => match sp_head(s, p2, 0) {
                    None => None,
                    Some((exp, p3)) => match sp_call_tail(s, p3) {
                        None => None,
                        Some(((sender, cid, method, arg), p4)) => Some(
                            (
                                EnvelopeContentV::Call {
                                    nonce: Some(nb),
                                    ingress_expiry: exp,
                                    sender,
                                    canister_id: cid,
                                    method_name: method,
                                    arg,
                                },
                                p4,
                            ),
                        ),
                    },
                },
            },
        },
        None => match sp_lit(s, pos, lit_req_call_plain()) {
            Some(p0) => match sp_head(s, p0, 0) {
                None => None,
                Some((exp, p1)) => match sp_call_tail(s, p1) {
                    None => None,
                    Some(((sender, cid, method, arg), p2)) => Some(
                        (
                            EnvelopeContentV::Call {
                                nonce: None,
                                ingress_expiry: exp,
                                sender,
                                canister_id: cid,
                                method_name: method,
                                arg,
                            },
                            p2,
                        ),
                    ),
                },
            },
            None => match sp_lit(s, pos, lit_req_read_state()) {
                None => None,
                Some(p0) => match sp_bstr(s, p0) {
                    None => None,
                    Some((sender, p1)) => Some((EnvelopeContentV::ReadState { sender }, p1)),
                },
            },
        },
    }
}

pub open spec fn dec_client_request(s: Seq<u8>) -> Option<ClientRequestV> {
    match sp_lit(s, 0, lit_req_pre()) {
        None => None,
        Some(p0) => match sp_envelope_content(s, p0) {
            None => None,
            Some((content, p1)) => match sp_lit(s, p1, lit_req_pubkey()) {
                None => None,
                Some(p2) => match sp_bstr(s, p2) {
                    None => None,
                    Some((pubkey, p3)) => match sp_lit(s, p3, lit_req_sig()) {
                        None => None,
                        Some(p4) => match sp_bstr(s, p4) {
                            None => None,
                            Some((sig, p5)) => if p5 == s.len() {
                                Some(
                                    ClientRequestV {
                                        envelope: EnvelopeV {
                                            content,
                                            sender_sig: sig,
                                            sender_pubkey: pubkey,
                                        },
                                    },
                                )
                            } else {
                                None
                            },
                        },
                    },
                },
            },
        },
    }
}

/// Parses the signed fields a call carries after its expiry.
fn parse_call_tail(data: &Vec<u8>, pos: usize) -> (r: Option<
    (ClientPrincipal, CanisterId, Vec<u8>, Vec<u8>, usize),
>)
    ensures
        match r {
            Some(t) => sp_call_tail(data@, pos as int) == Some(
                ((t.0@, t.1@, t.2@, t.3@), t.4 as int),
            ) && t.4 <= data@.len(),
            None => sp_call_tail(data@, pos as int) is None,
        },
{
    let k = key_req_sender();
    let p1 = match p_lit(data, pos, &k) {
        None => {
            return None;
        },
        Some(p) => p,
    };
    let (sender, p2) = match p_bstr(data, p1) {
        None => {
            return None;
        },
        Some(t) => t,
    };
    let k = key_req_canister();
    let p3 = match p_lit(data, p2, &k) {
        None => {
            return None;
        },
        Some(p) => p,
    };
    let (cid, p4) = match p_bstr(data, p3) {
        None => {
            return None;
        },
        Some(t) => t,
    };
    let k = key_req_method();
    let p5 = match p_lit(data, p4, &k) {
        None => {
            return None;
        },
        Some(p) => p,
    };
    let (method, p6) = match p_tstr(data, p5) {
        None => {
            return None;
        },
        Some(t) => t,
    };
    let k = key_req_arg();
    let p7 = match p_lit(data, p6, &k) {
        None => {
            return None;
        },
        Some(p) => p,
    };
    let (arg, p8) = match p_bstr(data, p7) {
        None => {
            return None;
        },
        Some(t) => t,
    };
    Some(
        (
            ClientPrincipal::from_bytes(sender),
            ClientPrincipal::from_bytes(cid),
            method,
            arg,
            p8,
        ),
    )
}

/// Parses one envelope content map: a call, with or without its nonce, or a
/// read-state request.
fn parse_envelope_content(data: &Vec<u8>, pos: usize) -> (r: Option<(EnvelopeContent, usize)>)
    ensures
        match r {
            Some(t) => sp_envelope_content(data@, pos as int) == Some((t.0@, t.1 as int)) && t.1
                <= data@.len(),
            None => sp_envelope_content(data@, pos as int) is None,
        },
{
    let k_nonce = key_req_call_nonce();
    match p_lit(data, pos, &k_nonce) {
        Some(p0) => {
            let (nb, p1) = match p_bstr(data, p0) {
                None => {
                    return None;
                },
                Some(t) => t,
            };
            let k = key_req_expiry();
            let p2 = match p_lit(data, p1, &k) {
                None => {
                    return None;
                },
                Some(p) => p,
            };
            let (exp, p3) = match p_head(data, p2, 0) {
                None => {
                    return None;
                },
                Some(t) => t,
            };
            let (sender, canister_id, method_name, arg, p4) = match parse_call_tail(data, p3) {
                None => {
                    return None;
                },
                Some(t) => t,
            };
            Some(
                (
                    EnvelopeContent::Call {
                        nonce: Some(nb),
                        ingress_expiry: exp,
                        sender,
                        canister_id,
                        method_name,
                        arg,
                    },
                    p4,
                ),
            )
        },
        None => {
            let k_plain = key_req_call_plain();
            match p_lit(data, pos, &k_plain) {
                Some(p0) => {
                    let (exp, p1) = match p_head(data, p0, 0) {
                        None => {
                            return None;
                        },
                        Some(t) => t,
                    };
                    let (sender, canister_id, method_name, arg, p2) = match parse_call_tail(
                        data,
                        p1,
                    ) {
                        None => {
                            return None;
                        },
                        Some(t) => t,
                    };
                    Some(
                        (
                            EnvelopeContent::Call {
                                nonce: None,
                                ingress_expiry: exp,
                                sender,
                                canister_id,
                                method_name,
                                arg,
                            },
                            p2,
                        ),
                    )
                },
                None => {
                    let k_rs = key_req_read_state();
                    let p0 = match p_lit(data, pos, &k_rs) {
                        None => {
                            return None;
                        },
                        Some(p) => p,
                    };
                    let (sender, p1) = match p_bstr(data, p0) {
                        None => {
                            return None;
                        },
                        Some(t) => t,
                    };
                    Some(
                        (
                            EnvelopeContent::ReadState {
                                sender: ClientPrincipal::from_bytes(sender),
                            },
                            p1,
                        ),
                    )
                },
            }
        },
    }
}

/// Appends the signed fields a call carries after its expiry.
fn push_call_tail(
    out: &mut Vec<u8>,
    sender: &ClientPrincipal,
    canister_id: &CanisterId,
    method_name: &Vec<u8>,
    arg: &Vec<u8>,
)
    ensures
        final(out)@ == old(out)@ + enc_call_tail(sender@, canister_id@, method_name@, arg@),
{
    let mut k = key_req_sender();
    out.append(&mut k);
    push_bstr(out, sender.as_bytes());
    let mut k = key_req_canister();
    out.append(&mut k);
    push_bstr(out, canister_id.as_bytes());
    let mut k = key_req_method();
    out.append(&mut k);
    push_tstr(out, method_name);
    let mut k = key_req_arg();
    out.append(&mut k);
    push_bstr(out, arg);
    proof {
        assert(out@ =~= old(out)@ + enc_call_tail(sender@, canister_id@, method_name@, arg@));
    }
}

pub fn encode_client_request(m: &ClientRequest) -> (out: Vec<u8>)
    ensures
        out@ == enc_client_request(m@),
{
    let mut out = key_req_pre();
    let mut c = encode_envelope_content(&m.envelope.content);
    out.append(&mut c);
    let mut k = key_req_pubkey();
    out.append(&mut k);
    push_bstr(&mut out, &m.envelope.sender_pubkey);
    let mut k = key_req_sig();
    out.append(&mut k);
    push_bstr(&mut out, &m.envelope.sender_sig);
    proof {
        assert(out@ =~= enc_client_request(m@));
    }
    out
}

pub fn decode_client_request(data: &Vec<u8>) -> (r: Option<ClientRequest>)
    ensures
        match r {
            Some(m) => dec_client_request(data@) == Some(m@),
            None => dec_client_request(data@) is None,
        },
{
    let pre = key_req_pre();
    let p0 = match p_lit(data, 0, &pre) {
        None => {
            return None;
        },
        Some(p) => p,
    };
    let (content, pc) = match parse_envelope_content(data, p0) {
        None => {
            return None;
        },
        Some(t) => t,
    };
    let k = key_req_pubkey();
    let p2 = match p_lit(data, pc, &k) {
        None => {
            return None;
        },
        Some(p) => p,
    };
    let (pubkey, p3) = match p_bstr(data, p2) {
        None => {
            return None;
        },
        Some(t) => t,
    };
    let k = key_req_sig();
    let p4 = match p_lit(data, p3, &k) {
        None => {
            return None;
        },
        Some(p) => p,
    };
    let (sig, p5) = match p_bstr(data, p4) {
        None => {
            return None;
        },
        Some(t) => t,
    };
    if p5 != data.len() {
        return None;
    }
    Some(
        ClientRequest {
            envelope: Envelope { content, sender_sig: sig, sender_pubkey: pubkey },
        },
    )
}

/// A call tail placed at `pos` parses back to itself.
#[verifier::rlimit(100)]
proof fn lemma_call_tail_at(
    s: Seq<u8>,
    pos: int,
    sender: Seq<u8>,
    canister_id: Seq<u8>,
    method_name: Seq<u8>,
    arg: Seq<u8>,
)
    requires
        fits_u64(sender),
        fits_u64(canister_id),
        fits_u64(method_name),
        fits_u64(arg),
        0 <= pos,
        pos + enc_call_tail(sender, canister_id, method_name, arg).len() <= s.len(),
        s.subrange(pos, pos + enc_call_tail(sender, canister_id, method_name, arg).len())
            == enc_call_tail(sender, canister_id, method_name, arg),
    ensures
        sp_call_tail(s, pos) == Some(
            (
                (sender, canister_id, method_name, arg),
                pos + enc_call_tail(sender, canister_id, method_name, arg).len(),
            ),
        ),
{
    let e = enc_call_tail(sender, canister_id, method_name, arg);
    let m0 = lit_req_sender();
    let d0 = enc_bstr(sender);
    let m1 = lit_req_canister();
    let d1 = enc_bstr(canister_id);
    let m2 = lit_req_method();
    let d2 = enc_tstr(method_name);
    let m3 = lit_req_arg();
    let d3 = enc_bstr(arg);
    let q0 = pos + m0.len();
    let q1 = q0 + d0.len();
    let q2 = q1 + m1.len();
    let q3 = q2 + d1.len();
    let q4 = q3 + m2.len();
    let q5 = q4 + d2.len();
    let q6 = q5 + m3.len();
    let q7 = q6 + d3.len();
    assert(q7 == pos + e.len());
    assert forall|i: int| pos <= i < pos + e.len() implies s[i] == e[i - pos] by {
        assert(s.subrange(pos, pos + e.len())[i - pos] == e[i - pos]);
    }
    assert(s.subrange(pos, q0) =~= m0);
    lemma_lit_round_trip(s, pos, m0);
    assert(s.subrange(q0, q1) =~= d0);
    lemma_bstr_round_trip(s, q0, sender);
    assert(s.subrange(q1, q2) =~= m1);
    lemma_lit_round_trip(s, q1, m1);
    assert(s.subrange(q2, q3) =~= d1);
    lemma_bstr_round_trip(s, q2, canister_id);
    assert(s.subrange(q3, q4) =~= m2);
    lemma_lit_round_trip(s, q3, m2);
    assert(s.subrange(q4, q5) =~= d2);
    lemma_tstr_round_trip(s, q4, method_name);
    assert(s.subrange(q5, q6) =~= m3);
    lemma_lit_round_trip(s, q5, m3);
    assert(s.subrange(q6, q7) =~= d3);
    lemma_bstr_round_trip(s, q6, arg);
}

/// An envelope content placed at `pos` parses back to itself.
#[verifier::rlimit(100)]
proof fn lemma_envelope_content_at(s: Seq<u8>, pos: int, c: EnvelopeContentV)
    requires
        wf_envelope_content(c),
        0 <= pos,
        pos + enc_envelope_content(c).len() <= s.len(),
        s.subrange(pos, pos + enc_envelope_content(c).len()) == enc_envelope_content(c),
    ensures
        sp_envelope_content(s, pos) == Some((c, pos + enc_envelope_content(c).len())),
{
    let e = enc_envelope_content(c);
    assert forall|i: int| pos <= i < pos + e.len() implies s[i] == e[i - pos] by {
        assert(s.subrange(pos, pos + e.len())[i - pos] == e[i - pos]);
    }
    match c {
        EnvelopeContentV::Call {
            nonce,
            ingress_expiry,
            sender,
            canister_id,
            method_name,
            arg,
        } => {
            let tail = enc_call_tail(sender, canister_id, method_name, arg);
            match nonce {
                Some(nb) => {
                    let m0 = lit_req_call_nonce();
                    let d0 = enc_bstr(nb);
                    let m1 = lit_req_expiry();
                    let d1 = enc_head(0, ingress_expiry);
                    let q0 = pos + m0.len();
                    let q1 = q0 + d0.len();
                    let q2 = q1 + m1.len();
                    let q3 = q2 + d1.len();
                    let q4 = q3 + tail.len();
                    assert(q4 == pos + e.len());
                    assert(s.subrange(pos, q0) =~= m0);
                    lemma_lit_round_trip(s, pos, m0);
                    assert(s.subrange(q0, q1) =~= d0);
                    lemma_bstr_round_trip(s, q0, nb);
                    assert(s.subrange(q1, q2) =~= m1);
                    lemma_lit_round_trip(s, q1, m1);
                    assert(s.subrange(q2, q3) =~= d1);
                    lemma_head_round_trip(s, q2, 0, ingress_expiry);
                    assert(s.subrange(q3, q4) =~= tail);
                    lemma_call_tail_at(s, q3, sender, canister_id, method_name, arg);
                },
                None => {
                    let m0 = lit_req_call_plain();
                    let d0 = enc_head(0, ingress_expiry);
                    let q0 = pos + m0.len();
                    let q1 = q0 + d0.len();
                    let q2 = q1 + tail.len();
                    assert(q2 == pos + e.len());
                    assert(sp_lit(s, pos, lit_req_call_nonce()) is None) by {
                        if pos + lit_req_call_nonce().len() <= s.len() {
                            assert(s.subrange(pos, pos + lit_req_call_nonce().len())[0]
                                == s[pos]);
                            assert(s[pos] == m0[0]);
                        }
                    }
                    assert(s.subrange(pos, q0) =~= m0);
                    lemma_lit_round_trip(s, pos, m0);
                    assert(s.subrange(q0, q1) =~= d0);
                    lemma_head_round_trip(s, q0, 0, ingress_expiry);
                    assert(s.subrange(q1, q2) =~= tail);
                    lemma_call_tail_at(s, q1, sender, canister_id, method_name, arg);
                },
            }
        },
        EnvelopeContentV::ReadState { sender } => {
            let m0 = lit_req_read_state();
            let d0 = enc_bstr(sender);
            let q0 = pos + m0.len();
            assert(sp_lit(s, pos, lit_req_call_nonce()) is None) by {
                if pos + lit_req_call_nonce().len() <= s.len() {
                    assert(s.subrange(pos, pos + lit_req_call_nonce().len())[0] == s[pos]);
                    assert(s[pos] == m0[0]);
                }
            }
            assert(sp_lit(s, pos, lit_req_call_plain()) is None) by {
                if pos + lit_req_call_plain().len() <= s.len() {
                    assert(s.subrange(pos, pos + lit_req_call_plain().len())[0] == s[pos]);
                    assert(s[pos] == m0[0]);
                }
            }
            assert(s.subrange(pos, q0) =~= m0);
            lemma_lit_round_trip(s, pos, m0);
            assert(s.subrange(q0, q0 + d0.len()) =~= d0);
            lemma_bstr_round_trip(s, q0, sender);
        },
    }
}

/// Decoding an encoded client request yields the original value.
#[verifier::rlimit(100)]
pub proof fn lemma_client_request_round_trip(v: ClientRequestV)
    requires
        wf_client_request(v),
    ensures
        dec_client_request(enc_client_request(v)) == Some(v),
{
    let s = enc_client_request(v);
    let l0 = lit_req_pre();
    let cc = enc_envelope_content(v.envelope.content);
    let l1 = lit_req_pubkey();
    let c1 = enc_bstr(v.envelope.sender_pubkey);
    let l2 = lit_req_sig();
    let c2 = enc_bstr(v.envelope.sender_sig);
    let o0 = l0.len() as int;
    let oc = o0 + cc.len();
    let o1 = oc + l1.len();
    let o2 = o1 + c1.len();
    let o3 = o2 + l2.len();
    let o4 = o3 + c2.len();
    assert(s.len() == o4);
    assert(s.subrange(0, o0) =~= l0);
    lemma_lit_round_trip(s, 0, l0);
    assert(s.subrange(o0, oc) =~= cc);
    lemma_envelope_content_at(s, o0, v.envelope.content);
    assert(s.subrange(oc, o1) =~= l1);
    lemma_lit_round_trip(s, oc, l1);
    assert(s.subrange(o1, o2) =~= c1);
    lemma_bstr_round_trip(s, o1, v.envelope.sender_pubkey);
    assert(s.subrange(o2, o3) =~= l2);
    lemma_lit_round_trip(s, o2, l2);
    assert(s.subrange(o3, o4) =~= c2);
    lemma_bstr_round_trip(s, o3, v.envelope.sender_sig);
}

// --- Envelope (encode only) ---

/// Tag, three-entry envelope map and content key of a bare envelope, as
/// submitted to the backend.
pub open spec fn lit_env_pre() -> Seq<u8> {
    seq![0xd9u8, 0xd9, 0xf7, 0xa3, 0x67, 0x63, 0x6f, 0x6e, 0x74, 0x65, 0x6e, 0x74]
}

fn key_env_pre() -> (v: Vec<u8>)
    ensures
        v@ == lit_env_pre(),
{
    let v: Vec<u8> = vec![0xd9, 0xd9, 0xf7, 0xa3, 0x67, 0x63, 0x6f, 0x6e, 0x74, 0x65, 0x6e, 0x74];
    proof {
        assert(v@ =~= lit_env_pre());
    }
    v
}

pub open spec fn enc_envelope(v: EnvelopeV) -> Seq<u8> {
    lit_env_pre() + enc_envelope_content(v.content) + lit_req_pubkey() + enc_bstr(
        v.sender_pubkey,
    ) + lit_req_sig() + enc_bstr(v.sender_sig)
}

/// Encodes one envelope content map.
#[verifier::rlimit(100)]
fn encode_envelope_content(c: &EnvelopeContent) -> (out: Vec<u8>)
    ensures
        out@ == enc_envelope_content(c@),
{
    let mut out: Vec<u8> = Vec::new();
    match c {
        EnvelopeContent::Call { nonce, ingress_expiry, sender, canister_id, method_name, arg } => {
            match nonce {
                Some(nb) => {
                    let mut k = key_req_call_nonce();
                    out.append(&mut k);
                    push_bstr(&mut out, nb);
                    let mut k = key_req_expiry();
                    out.append(&mut k);
                    push_head(&mut out, 0, *ingress_expiry);
                },
                None => {
                    let mut k = key_req_call_plain();
                    out.append(&mut k);
                    push_head(&mut out, 0, *ingress_expiry);
                },
            }
            push_call_tail(&mut out, sender, canister_id, method_name, arg);
        },
        EnvelopeContent::ReadState { sender } => {
            let mut k = key_req_read_state();
            out.append(&mut k);
            push_bstr(&mut out, sender.as_bytes());
        },
    }
    proof {
        assert(out@ =~= enc_envelope_content(c@));
    }
    out
}

/// Encodes a bare signed envelope for submission to the backend.
pub fn encode_envelope(m: &Envelope) -> (out: Vec<u8>)
    ensures
        out@ == enc_envelope(m@),
{
    let mut out = key_env_pre();
    let mut c = encode_envelope_content(&m.content);
    out.append(&mut c);
    let mut k = key_req_pubkey();
    out.append(&mut k);
    push_bstr(&mut out, &m.sender_pubkey);
    let mut k = key_req_sig();
    out.append(&mut k);
    push_bstr(&mut out, &m.sender_sig);
    proof {
        assert(out@ =~= enc_envelope(m@));
    }
    out
}

} // verus!
